//! What compiling rules, selecting groups and the preflight promise.
use crate::laws::manifest::lemma_sum_contains;
use crate::laws::seqs::law_collecting;
use crate::laws::text::{
    between, law_ascii_takes_one_byte, law_bytes_add_up, law_first_bytes_begin_the_text,
    law_infix_stands_between, law_prefix_is_followed_by_the_rest, law_split_at_the_first,
};
use crate::ordered::{key1, lemma_sorted_keys, lemma_text_keys, lookup, sorted_keys, text_keys};
use crate::reorg::compile::{
    checked_classes, group_results, group_spec, image_classes, match_spec, overlap, released_spec,
    rule_results, rule_spec, ClassesView, CompiledGroupView, CompiledRuleView, RulesErrorView,
};
use crate::reorg::config::{group_names, group_of, known_group, selection_error};
use crate::reorg::evidence::{date_part, short_digest, shortenable, MismatchInfoView};
use crate::reorg::patterns::regex_compiles;
use crate::reorg::plan::DeleteItemView;
use crate::reorg::preflight::{
    distinct, group_uses, law_preflight_clean, list_uses, optional_use, preflight_error, repo_info,
    repo_problems, rule_uses, RepoUseView,
};
use crate::reorg::report::showable;
use crate::reorg::rules::{Action, Group, MismatchPolicy, Rule, RulesFile};
use crate::seqs::{collect_ok, lemma_filter_map_contains, lemma_spread_contains, spread};
use crate::text::{
    byte_len, byte_prefix, has_infix, has_prefix, joined, lemma_find_char, split_first,
};
use vstd::prelude::*;

verus! {

/// A pattern's name stands for its expression; any other text is the expression
/// itself. Either way the whole tag has to match.
pub proof fn law_named_pattern_stands_for_its_expression(
    patterns: Seq<(Seq<Seq<char>>, Seq<char>)>,
    m: Seq<char>,
)
    ensures
        ({
            let source = match lookup(patterns, seq![m]) {
                Some(e) => e,
                None => m,
            };
            let whole = "^(?:"@ + source + ")$"@;
            &&& regex_compiles(whole) ==> match_spec(patterns, m) == Ok::<
                Seq<char>,
                RulesErrorView,
            >(whole)
            &&& !regex_compiles(whole) ==> match_spec(patterns, m) == Err::<
                Seq<char>,
                RulesErrorView,
            >(RulesErrorView::BadPattern(m, source))
        }),
        lookup(patterns, seq!["released"@]) is None ==> released_spec(patterns) is None,
        lookup(patterns, seq!["released"@]) is Some && match_spec(patterns, "released"@) is Ok
            ==> released_spec(patterns) == Some(match_spec(patterns, "released"@)->Ok_0),
        lookup(patterns, seq!["released"@]) is Some && match_spec(patterns, "released"@) is Err
            ==> released_spec(patterns) is None,
{
    assert(key1(m) =~= seq![m]);
    assert(key1("released"@) =~= seq!["released"@]);
}

/// A rule that compiles keeps what it says: its class, images, action and targets;
/// its mismatch policy is to delete unless it says otherwise.
pub proof fn law_compiled_rule_keeps_what_it_says(
    patterns: Seq<(Seq<Seq<char>>, Seq<char>)>,
    r: Rule,
    files: Seq<(Seq<Seq<char>>, ClassesView)>,
)
    ensures
        rule_spec(patterns, r, files) matches Ok(c) ==> {
            &&& c.action == r.action
            &&& c.images == r.images.deep_view()
            &&& c.dest == r.dest.deep_view()
            &&& c.check == r.check.deep_view()
            &&& c.aux_dest == r.aux_dest.deep_view()
            &&& c.insight_repo == r.insight_repo.deep_view()
            &&& r.on_mismatch is None ==> c.on_mismatch == MismatchPolicy::Delete
            &&& r.on_mismatch matches Some(p) ==> c.on_mismatch == p
            &&& match_spec(patterns, r.match_@) == Ok::<Seq<char>, RulesErrorView>(c.pattern)
            &&& r.match_@ == ".*"@ ==> c.class == "catch-all"@
            &&& r.match_@ != ".*"@ ==> c.class == r.match_@
        },
{
}

/// A rule needs the targets of its action: a move a destination, a conditional
/// delete a check repository, a reconcile both, a classification its two; with them,
/// and a sound pattern, a rule that does not classify compiles.
pub proof fn law_rule_needs_its_targets(
    patterns: Seq<(Seq<Seq<char>>, Seq<char>)>,
    r: Rule,
    files: Seq<(Seq<Seq<char>>, ClassesView)>,
)
    ensures
        rule_spec(patterns, r, files) is Ok ==> {
            &&& r.action == Action::Move ==> r.dest is Some
            &&& r.action == Action::DeleteIfAbsent ==> r.check is Some
            &&& r.action == Action::Reconcile ==> r.check is Some && r.dest is Some
            &&& r.action == Action::Classify ==> r.aux_dest is Some && r.insight_repo is Some
        },
        r.action == Action::Move && r.dest is None ==> rule_spec(patterns, r, files) == Err::<
            CompiledRuleView,
            RulesErrorView,
        >(RulesErrorView::MoveNeedsDest(r.match_@)),
        r.action == Action::DeleteIfAbsent && r.check is None ==> rule_spec(patterns, r, files)
            == Err::<CompiledRuleView, RulesErrorView>(
            RulesErrorView::DeleteIfAbsentNeedsCheck(r.match_@),
        ),
        r.action == Action::Reconcile && (r.check is None || r.dest is None) ==> rule_spec(
            patterns,
            r,
            files,
        ) == Err::<CompiledRuleView, RulesErrorView>(
            RulesErrorView::ReconcileNeedsTargets(r.match_@),
        ),
        r.action == Action::Classify && (r.aux_dest is None || r.insight_repo is None)
            ==> rule_spec(patterns, r, files) == Err::<CompiledRuleView, RulesErrorView>(
            RulesErrorView::ClassifyNeedsTargets(r.match_@),
        ),
        match_spec(patterns, r.match_@) is Ok && ((r.action == Action::Move && r.dest is Some) || (
        r.action == Action::DeleteIfAbsent && r.check is Some) || (r.action == Action::Reconcile
            && r.check is Some && r.dest is Some) || r.action == Action::Delete || r.action
            == Action::Leave) ==> rule_spec(patterns, r, files) is Ok,
{
}

/// An image is on a list of a rule, inline or in its file.
pub open spec fn on_list(inline: Seq<Seq<char>>, file: Seq<Seq<char>>, image: Seq<char>) -> bool {
    inline.contains(image) || file.contains(image)
}

/// The lists of a classifying rule are its own and those of its file, together; an
/// image on both lists is refused, and so are two empty lists.
pub proof fn law_classes_unite_rule_and_file(
    r: Rule,
    files: Seq<(Seq<Seq<char>>, ClassesView)>,
    i: Seq<Seq<char>>,
    a: Seq<Seq<char>>,
    image: Seq<char>,
)
    requires
        r.classes_file is None ==> i.len() == 0 && a.len() == 0,
        r.classes_file matches Some(path) ==> lookup(files, seq![path@]) == Some(
            ClassesView::Loaded(i, a),
        ),
    ensures
        image_classes(r, files) matches Ok(c) ==> {
            &&& c.0.contains(seq![image]) <==> on_list(r.insight_images.deep_view(), i, image)
            &&& c.1.contains(seq![image]) <==> on_list(r.aux_images.deep_view(), a, image)
            &&& !(c.0.contains(seq![image]) && c.1.contains(seq![image]))
        },
        on_list(r.insight_images.deep_view(), i, image) && on_list(
            r.aux_images.deep_view(),
            a,
            image,
        ) ==> (image_classes(r, files) matches Err(e) && e is ClassesOverlap),
{
    let x = r.insight_images.deep_view() + i;
    let y = r.aux_images.deep_view() + a;
    if let Some(path) = r.classes_file {
        assert(key1(path@) =~= seq![path@]);
    } else {
        assert(i =~= Seq::<Seq<char>>::empty());
        assert(a =~= Seq::<Seq<char>>::empty());
    }
    lemma_sorted_keys(text_keys(x));
    lemma_sorted_keys(text_keys(y));
    lemma_text_keys(x, image);
    lemma_text_keys(y, image);
    lemma_sum_contains(r.insight_images.deep_view(), i, image);
    lemma_sum_contains(r.aux_images.deep_view(), a, image);
    let insight = sorted_keys(text_keys(x));
    let aux = sorted_keys(text_keys(y));
    let f = |k: Seq<Seq<char>>|
        if aux.contains(k) {
            Some(k[0])
        } else {
            None
        };
    assert(key1(image) =~= seq![image]);
    assert(insight.contains(key1(image)) <==> text_keys(x).contains(key1(image)));
    assert(aux.contains(key1(image)) <==> text_keys(y).contains(key1(image)));
    if insight.contains(key1(image)) && aux.contains(key1(image)) {
        let z = choose|z: int| 0 <= z < insight.len() && insight[z] == key1(image);
        assert(f(insight[z]) == Some(image));
        lemma_filter_map_contains(insight, f, image);
        assert(overlap(insight, aux).contains(image));
    }
}

/// A classes file that cannot be read, or is none, refuses the rule; so do lists
/// without images.
pub proof fn law_classes_file_must_be_sound(
    r: Rule,
    files: Seq<(Seq<Seq<char>>, ClassesView)>,
)
    requires
        r.action == Action::Classify,
        r.aux_dest is Some,
        r.insight_repo is Some,
    ensures
        r.classes_file matches Some(path) ==> (lookup(files, seq![path@]) matches Some(
            ClassesView::Unreadable(p),
        ) ==> checked_classes(r, files) == Err::<
            (Seq<Seq<Seq<char>>>, Seq<Seq<Seq<char>>>),
            RulesErrorView,
        >(RulesErrorView::ClassesUnreadable(p))),
        r.classes_file matches Some(path) ==> (lookup(files, seq![path@]) matches Some(
            ClassesView::Malformed(p),
        ) ==> checked_classes(r, files) == Err::<
            (Seq<Seq<Seq<char>>>, Seq<Seq<Seq<char>>>),
            RulesErrorView,
        >(RulesErrorView::ClassesMalformed(p))),
        r.classes_file is None && r.insight_images@.len() == 0 && r.aux_images@.len() == 0
            ==> checked_classes(r, files) == Err::<
            (Seq<Seq<Seq<char>>>, Seq<Seq<Seq<char>>>),
            RulesErrorView,
        >(RulesErrorView::ClassifyEmpty(r.match_@)),
        checked_classes(r, files) matches Ok(c) ==> c.0.len() + c.1.len() > 0,
{
    if let Some(path) = r.classes_file {
        assert(key1(path@) =~= seq![path@]);
    } else if r.insight_images@.len() == 0 && r.aux_images@.len() == 0 {
        let none = Seq::<Seq<char>>::empty();
        assert(r.insight_images.deep_view() + none =~= none);
        assert(r.aux_images.deep_view() + none =~= none);
        assert(text_keys(none) =~= Seq::<Seq<Seq<char>>>::empty());
        assert(sorted_keys(text_keys(none)).len() == 0);
    }
}

/// A rules file compiles to its groups in order, each with its repositories and
/// prefixes and all its rules in order; it is refused with the first error of the
/// first group that has one.
pub proof fn law_rules_file_compiles_group_by_group(
    rules: RulesFile,
    files: Seq<(Seq<Seq<char>>, ClassesView)>,
)
    ensures
        collect_ok(group_results(rules, files)) matches Ok(gs) ==> gs.len() == rules.group@.len()
            && forall|i: int|
            0 <= i < gs.len() ==> is_compiled_group(
                rules.patterns@,
                rules.group@[i],
                files,
                #[trigger] gs[i],
            ),
        collect_ok(group_results(rules, files)) is Ok <==> forall|i: int, k: int|
            0 <= i < rules.group@.len() && 0 <= k < rules.group@[i].rules@.len() ==> rule_spec(
                rules.patterns@,
                #[trigger] rules.group@[i].rules@[k],
                files,
            ) is Ok,
{
    let rs = group_results(rules, files);
    law_collecting(rs);
    assert forall|i: int| 0 <= i < rules.group@.len() implies (group_spec(
        rules.patterns@,
        #[trigger] rules.group@[i],
        files,
    ) is Ok <==> all_rules_ok(rules.patterns@, rules.group@[i], files)) && (group_spec(
        rules.patterns@,
        rules.group@[i],
        files,
    ) matches Ok(g) ==> is_compiled_group(rules.patterns@, rules.group@[i], files, g)) by {
        let one = rule_results(rules.patterns@, rules.group@[i].rules@, files);
        law_collecting(one);
        assert forall|k: int| 0 <= k < one.len() implies #[trigger] one[k] == rule_spec(
            rules.patterns@,
            rules.group@[i].rules@[k],
            files,
        ) by {}
        if collect_ok(one) is Ok {
            assert forall|k: int| 0 <= k < rules.group@[i].rules@.len() implies rule_spec(
                rules.patterns@,
                #[trigger] rules.group@[i].rules@[k],
                files,
            ) is Ok by {
                assert(one[k] is Ok);
            }
            let v = collect_ok(one)->Ok_0;
            assert forall|k: int| 0 <= k < rules.group@[i].rules@.len() implies rule_spec(
                rules.patterns@,
                #[trigger] rules.group@[i].rules@[k],
                files,
            ) == Ok::<CompiledRuleView, RulesErrorView>(v[k]) by {
                assert(one[k] == Ok::<CompiledRuleView, RulesErrorView>(v[k]));
            }
        }
        if all_rules_ok(rules.patterns@, rules.group@[i], files) {
            assert forall|k: int| 0 <= k < one.len() implies (#[trigger] one[k]) is Ok by {
                assert(rule_spec(rules.patterns@, rules.group@[i].rules@[k], files) is Ok);
            }
        }
    }
    assert forall|i: int| 0 <= i < rs.len() implies #[trigger] rs[i] == group_spec(
        rules.patterns@,
        rules.group@[i],
        files,
    ) by {}
    if collect_ok(rs) is Ok {
        let gs = collect_ok(rs)->Ok_0;
        assert forall|i: int| 0 <= i < gs.len() implies is_compiled_group(
            rules.patterns@,
            rules.group@[i],
            files,
            #[trigger] gs[i],
        ) by {
            assert(rs[i] == Ok::<CompiledGroupView, RulesErrorView>(gs[i]));
        }
        assert forall|i: int, k: int|
            0 <= i < rules.group@.len() && 0 <= k < rules.group@[i].rules@.len() implies rule_spec(
            rules.patterns@,
            #[trigger] rules.group@[i].rules@[k],
            files,
        ) is Ok by {
            assert(rs[i] is Ok);
            assert(all_rules_ok(rules.patterns@, rules.group@[i], files));
        }
    }
    if forall|i: int, k: int|
        0 <= i < rules.group@.len() && 0 <= k < rules.group@[i].rules@.len() ==> rule_spec(
            rules.patterns@,
            #[trigger] rules.group@[i].rules@[k],
            files,
        ) is Ok {
        assert forall|i: int| 0 <= i < rs.len() implies (#[trigger] rs[i]) is Ok by {
            assert(all_rules_ok(rules.patterns@, rules.group@[i], files));
            assert(group_spec(rules.patterns@, rules.group@[i], files) is Ok);
        }
    }
}

/// Every rule of a group compiles.
pub open spec fn all_rules_ok(
    patterns: Seq<(Seq<Seq<char>>, Seq<char>)>,
    g: Group,
    files: Seq<(Seq<Seq<char>>, ClassesView)>,
) -> bool {
    forall|k: int|
        0 <= k < g.rules@.len() ==> rule_spec(patterns, #[trigger] g.rules@[k], files) is Ok
}

/// A compiled group is that of a group of the file.
pub open spec fn is_compiled_group(
    patterns: Seq<(Seq<Seq<char>>, Seq<char>)>,
    g: Group,
    files: Seq<(Seq<Seq<char>>, ClassesView)>,
    c: CompiledGroupView,
) -> bool {
    &&& c.format == g.format@
    &&& c.source_repos == g.source_repos.deep_view()
    &&& c.first_party_prefixes == g.first_party_prefixes.deep_view()
    &&& c.purge_repos == g.purge_repos.deep_view()
    &&& c.retired_prefixes == g.retired_prefixes.deep_view()
    &&& c.rules.len() == g.rules@.len()
    &&& forall|k: int|
        0 <= k < g.rules@.len() ==> rule_spec(patterns, #[trigger] g.rules@[k], files) == Ok::<
            CompiledRuleView,
            RulesErrorView,
        >(c.rules[k])
}

/// A text is the name of a group, or stands for all.
pub open spec fn is_group_name(g: Seq<char>) -> bool {
    g == "all"@ || g == "move"@ || g == "redundant"@ || g == "superseded"@ || g == "mismatch"@ || g
        == "retired"@ || g == "non-released"@
}

/// The groups that can be selected are known by name.
pub proof fn law_groups_are_known_by_name(g: Seq<char>)
    ensures
        known_group(g) <==> is_group_name(g),
{
    let names = group_names();
    if names.contains(g) {
        let i = choose|i: int| 0 <= i < names.len() && names[i] == g;
    }
    if is_group_name(g) && g != "all"@ {
        assert(names[0] == "move"@);
        assert(names[1] == "redundant"@);
        assert(names[2] == "superseded"@);
        assert(names[3] == "mismatch"@);
        assert(names[4] == "retired"@);
        assert(names[5] == "non-released"@);
    }
}

/// A selection is refused exactly where it names something that is no group, and the
/// refusal begins with the first such name.
pub proof fn law_selection_names_groups(sel: Seq<Seq<char>>)
    ensures
        selection_error(sel) is None <==> forall|i: int|
            0 <= i < sel.len() ==> is_group_name(#[trigger] sel[i]),
        forall|i: int|
            0 <= i < sel.len() && !is_group_name(#[trigger] sel[i]) && (forall|j: int|
                0 <= j < i ==> is_group_name(#[trigger] sel[j])) ==> (selection_error(
                sel,
            ) matches Some(e) && has_prefix(e, "unknown --apply group '"@ + sel[i] + "'"@)),
    decreases sel.len(),
{
    if sel.len() > 0 {
        let rest = sel.skip(1);
        law_selection_names_groups(rest);
        law_groups_are_known_by_name(sel[0]);
        assert forall|i: int| 0 <= i < rest.len() implies #[trigger] rest[i] == sel[i + 1] by {}
        if !known_group(sel[0]) {
            assert(!is_group_name(sel[0]));
            let e = selection_error(sel)->Some_0;
            let start = "unknown --apply group '"@ + sel[0] + "'"@;
            reveal_strlit("'");
            reveal_strlit("'; valid groups: ");
            assert(e.take(start.len() as int) =~= start);
            assert forall|i: int|
                0 <= i < sel.len() && !is_group_name(#[trigger] sel[i]) && (forall|j: int|
                    0 <= j < i ==> is_group_name(#[trigger] sel[j])) implies i == 0 by {
                if i > 0 {
                    assert(is_group_name(sel[0]));
                }
            }
        } else {
            if selection_error(rest) is None {
                assert forall|i: int| 0 <= i < sel.len() implies is_group_name(
                    #[trigger] sel[i],
                ) by {
                    if i > 0 {
                        assert(is_group_name(rest[i - 1]));
                    }
                }
            }
            if forall|i: int| 0 <= i < sel.len() ==> is_group_name(#[trigger] sel[i]) {
                assert forall|i: int| 0 <= i < rest.len() implies is_group_name(
                    #[trigger] rest[i],
                ) by {
                    assert(is_group_name(sel[i + 1]));
                }
            }
            assert forall|i: int|
                0 <= i < sel.len() && !is_group_name(#[trigger] sel[i]) && (forall|j: int|
                    0 <= j < i ==> is_group_name(#[trigger] sel[j])) implies (selection_error(
                sel,
            ) matches Some(e) && has_prefix(e, "unknown --apply group '"@ + sel[i] + "'"@)) by {
                assert(i > 0);
                assert(!is_group_name(rest[i - 1]));
                assert forall|j: int| 0 <= j < i - 1 implies is_group_name(#[trigger] rest[j]) by {
                    assert(is_group_name(sel[j + 1]));
                }
            }
        }
    }
}

/// The deletes whose reason begins with "superseded" make a group, the others are
/// redundant copies.
pub proof fn law_deletes_are_grouped_by_reason(d: DeleteItemView, rest: Seq<char>)
    ensures
        d.reason == "superseded"@ + rest ==> group_of(d) == "superseded"@,
        !has_prefix(d.reason, "superseded"@) ==> group_of(d) == "redundant"@,
{
    law_prefix_is_followed_by_the_rest(d.reason, "superseded"@);
}

/// What is known of a repository is what the last entry of its name says.
pub proof fn law_repository_is_known_by_its_last_entry(
    inventory: Seq<(Seq<char>, Seq<char>, Seq<char>)>,
    name: Seq<char>,
    i: int,
)
    ensures
        0 <= i < inventory.len() && inventory[i].0 == name && (forall|j: int|
            i < j < inventory.len() ==> (#[trigger] inventory[j]).0 != name) ==> repo_info(
            inventory,
            name,
        ) == Some((inventory[i].1, inventory[i].2)),
        repo_info(inventory, name) is None <==> forall|j: int|
            0 <= j < inventory.len() ==> (#[trigger] inventory[j]).0 != name,
    decreases inventory.len(),
{
    if inventory.len() > 0 {
        let rest = inventory.drop_last();
        law_repository_is_known_by_its_last_entry(rest, name, i);
        assert forall|j: int| 0 <= j < rest.len() implies #[trigger] rest[j] == inventory[j] by {}
        if inventory.last().0 == name {
            assert(inventory[inventory.len() - 1].0 == name);
        } else {
            if forall|j: int| 0 <= j < rest.len() ==> (#[trigger] rest[j]).0 != name {
                assert forall|j: int| 0 <= j < inventory.len() implies (
                #[trigger] inventory[j]).0 != name by {
                    if j < rest.len() {
                        assert(rest[j].0 != name);
                    }
                }
            }
            if forall|j: int| 0 <= j < inventory.len() ==> (#[trigger] inventory[j]).0 != name {
                assert forall|j: int| 0 <= j < rest.len() implies (#[trigger] rest[j]).0
                    != name by {
                    assert(inventory[j].0 != name);
                }
            }
            if 0 <= i < inventory.len() && inventory[i].0 == name && (forall|j: int|
                i < j < inventory.len() ==> (#[trigger] inventory[j]).0 != name) {
                assert forall|j: int| i < j < rest.len() implies (#[trigger] rest[j]).0
                    != name by {
                    assert(inventory[j].0 != name);
                }
            }
        }
    }
}

/// A repository is there with the format of a group.
pub open spec fn is_there(
    inventory: Seq<(Seq<char>, Seq<char>, Seq<char>)>,
    name: Seq<char>,
    format: Seq<char>,
) -> bool {
    repo_info(inventory, name) is Some && repo_info(inventory, name)->Some_0.1 == format
}

/// A repository is there with the format of a group, and hosts artifacts itself.
pub open spec fn is_hosted(
    inventory: Seq<(Seq<char>, Seq<char>, Seq<char>)>,
    name: Seq<char>,
    format: Seq<char>,
) -> bool {
    is_there(inventory, name, format) && repo_info(inventory, name)->Some_0.0 == "hosted"@
}

/// The preflight lets rules pass only where every repository that they name is there
/// with the group's format, and every destination is hosted.
pub proof fn law_preflight_checks_every_reference(
    inventory: Seq<(Seq<char>, Seq<char>, Seq<char>)>,
    groups: Seq<CompiledGroupView>,
    usage_repo: Option<Seq<char>>,
    i: int,
    k: int,
)
    requires
        preflight_error(distinct(repo_problems(inventory, groups, usage_repo))) is None,
        0 <= i < groups.len(),
    ensures
        ({
            let g = groups[i];
            &&& 0 <= k < g.source_repos.len() ==> is_there(inventory, g.source_repos[k], g.format)
            &&& 0 <= k < g.purge_repos.len() ==> is_there(inventory, g.purge_repos[k], g.format)
            &&& 0 <= k < g.rules.len() ==> {
                let r = g.rules[k];
                &&& r.dest matches Some(d) ==> is_hosted(inventory, d, g.format)
                &&& r.aux_dest matches Some(d) ==> is_hosted(inventory, d, g.format)
                &&& r.check matches Some(d) ==> is_there(inventory, d, g.format)
                &&& r.insight_repo matches Some(d) ==> is_there(inventory, d, g.format)
            }
            &&& usage_repo matches Some(u) ==> repo_info(inventory, u) is Some
        }),
{
    law_preflight_clean(inventory, groups, usage_repo);
    let g = groups[i];
    let f = group_uses();
    let uses = spread(groups, f);
    let a = g.source_repos.map_values(list_uses(g.format, "source"@));
    let b = g.purge_repos.map_values(list_uses(g.format, "purge"@));
    let c = spread(g.rules, rule_uses(g.format));
    if 0 <= k < g.source_repos.len() {
        let u = a[k];
        assert(a.contains(u));
        lemma_used(groups, i, u);
    }
    if 0 <= k < g.purge_repos.len() {
        let u = b[k];
        assert(b.contains(u));
        lemma_used(groups, i, u);
    }
    if 0 <= k < g.rules.len() {
        let r = g.rules[k];
        let h = rule_uses(g.format);
        let parts = h(r);
        let x = optional_use(r.dest, g.format, true, "destination"@);
        let y = optional_use(r.check, g.format, false, "check"@);
        let z = optional_use(r.aux_dest, g.format, true, "aux destination"@);
        let w = optional_use(r.insight_repo, g.format, false, "insight"@);
        assert(parts == x + y + z + w);
        if let Some(d) = r.dest {
            let u = x[0];
            assert(parts[0] == u);
            lemma_rule_used(groups, i, k, u);
        }
        if let Some(d) = r.check {
            let u = y[0];
            assert(parts[x.len() as int] == u);
            lemma_rule_used(groups, i, k, u);
        }
        if let Some(d) = r.aux_dest {
            let u = z[0];
            assert(parts[(x.len() + y.len()) as int] == u);
            lemma_rule_used(groups, i, k, u);
        }
        if let Some(d) = r.insight_repo {
            let u = w[0];
            assert(parts[(x.len() + y.len() + z.len()) as int] == u);
            lemma_rule_used(groups, i, k, u);
        }
    }
}

/// What a rule names is used.
proof fn lemma_rule_used(groups: Seq<CompiledGroupView>, i: int, k: int, u: RepoUseView)
    requires
        0 <= i < groups.len(),
        0 <= k < groups[i].rules.len(),
        rule_uses(groups[i].format)(groups[i].rules[k]).contains(u),
    ensures
        spread(groups, group_uses()).contains(u),
{
    let g = groups[i];
    lemma_spread_contains(g.rules, rule_uses(g.format), u);
    lemma_used(groups, i, u);
}

/// What a group names is used.
proof fn lemma_used(groups: Seq<CompiledGroupView>, i: int, u: RepoUseView)
    requires
        0 <= i < groups.len(),
        ({
            let g = groups[i];
            g.source_repos.map_values(list_uses(g.format, "source"@)).contains(u)
                || g.purge_repos.map_values(list_uses(g.format, "purge"@)).contains(u) || spread(
                g.rules,
                rule_uses(g.format),
            ).contains(u)
        }),
    ensures
        spread(groups, group_uses()).contains(u),
{
    let g = groups[i];
    let a = g.source_repos.map_values(list_uses(g.format, "source"@));
    let b = g.purge_repos.map_values(list_uses(g.format, "purge"@));
    let c = spread(g.rules, rule_uses(g.format));
    lemma_sum_contains(a, b, u);
    lemma_sum_contains(a + b, c, u);
    assert(group_uses()(groups[i]).contains(u));
    lemma_spread_contains(groups, group_uses(), u);
}

/// The date of a timestamp in ASCII is its first ten characters, or all of it where
/// it is shorter; a digest is shown with its algorithm and twelve characters.
pub proof fn law_dates_and_digests_are_cut(date: Seq<char>, rest: Seq<char>, algo: Seq<char>)
    requires
        forall|i: int| 0 <= i < date.len() ==> (#[trigger] date[i] as u32) < 0x80,
        !algo.contains(':'),
    ensures
        date.len() == 10 ==> date_part(date + rest) == date,
        date.len() < 10 ==> date_part(date) == date,
        date.len() == 12 ==> short_digest(algo + seq![':'] + (date + rest)) == algo + seq![':']
            + date,
        date.len() < 12 ==> short_digest(algo + seq![':'] + date) == algo + seq![':'] + date,
{
    law_ascii_takes_one_byte(date);
    law_first_bytes_begin_the_text(date, rest, 10);
    law_first_bytes_begin_the_text(date, date, 10);
    law_split_at_the_first(algo, ':', date + rest);
    law_split_at_the_first(algo, ':', date);
    law_bytes_add_up(date, rest);
    reveal_strlit(":");
    assert(":"@ =~= seq![':']);
    if date.len() < 10 {
        if let Some(p) = byte_prefix(date, 10) {
            assert(byte_len(p) == 10);
            let tail = choose|tail: Seq<char>| date == #[trigger] (p + tail);
            law_prefix_is_followed_by_the_rest(date, p);
            law_bytes_add_up(p, tail);
        }
    }
    if date.len() == 12 {
        if byte_len(date + rest) <= 12 {
            law_bytes_add_up(rest, rest);
            assert(rest.len() == 0);
            assert(date + rest =~= date);
        }
    }
}

/// A digest without an algorithm is cut to twelve characters; every digest in ASCII
/// can be shown.
pub proof fn law_digests_in_ascii_can_be_shown(digest: Seq<char>)
    requires
        forall|i: int| 0 <= i < digest.len() ==> (#[trigger] digest[i] as u32) < 0x80,
    ensures
        shortenable(digest),
        !digest.contains(':') && digest.len() > 12 ==> short_digest(digest) == digest.take(12),
        !digest.contains(':') && digest.len() <= 12 ==> short_digest(digest) == digest,
{
    if !digest.contains(':') {
        law_split_at_the_first(digest, ':', digest);
    }
    if let Some(p) = split_first(digest, ':') {
        lemma_find_char(digest, ':', 0);
        let hex = p.1;
        let k = digest.len() - hex.len();
        assert(hex =~= digest.skip(k));
        assert forall|i: int| 0 <= i < hex.len() implies (#[trigger] hex[i] as u32) < 0x80 by {
            assert(hex[i] == digest[k + i]);
        }
        law_ascii_takes_one_byte(hex);
        if hex.len() > 12 {
            let a = hex.take(12);
            assert forall|i: int| 0 <= i < a.len() implies (#[trigger] a[i] as u32) < 0x80 by {
                assert(a[i] == hex[i]);
            }
            law_ascii_takes_one_byte(a);
            assert(hex =~= a + hex.skip(12));
            law_first_bytes_begin_the_text(a, hex.skip(12), 12);
        }
    }
}

/// A name stands in a text between two others.
pub proof fn lemma_named(s: Seq<char>, a: Seq<char>, name: Seq<char>, b: Seq<char>)
    requires
        s =~= a + name + b,
    ensures
        has_infix(s, name),
{
    assert(between(s, a, name, b));
    law_infix_stands_between(s, name);
}

/// The message of an error names what it is about: the rule, the file, the images or
/// the expression.
pub proof fn law_messages_name_what_is_wrong(m: Seq<char>, s: Seq<char>, images: Seq<Seq<char>>)
    ensures
        has_infix(RulesErrorView::MoveNeedsDest(m).message(), m),
        has_infix(RulesErrorView::MoveNeedsDest(m).message(), "'dest'"@),
        has_infix(RulesErrorView::DeleteIfAbsentNeedsCheck(m).message(), m),
        has_infix(RulesErrorView::DeleteIfAbsentNeedsCheck(m).message(), "'check'"@),
        has_infix(RulesErrorView::ReconcileNeedsTargets(m).message(), m),
        has_infix(RulesErrorView::ReconcileNeedsTargets(m).message(), "'check' and 'dest'"@),
        has_infix(RulesErrorView::ClassifyNeedsTargets(m).message(), m),
        has_infix(
            RulesErrorView::ClassifyNeedsTargets(m).message(),
            "'aux_dest' and 'insight_repo'"@,
        ),
        has_infix(RulesErrorView::ClassesUnreadable(m).message(), m),
        has_infix(RulesErrorView::ClassesMalformed(m).message(), m),
        RulesErrorView::ClassesUnreadable(m).message() != RulesErrorView::ClassesMalformed(
            m,
        ).message(),
        has_infix(RulesErrorView::ClassesOverlap(m, images).message(), m),
        has_infix(RulesErrorView::ClassesOverlap(m, images).message(), joined(images, ", "@)),
        has_infix(RulesErrorView::ClassifyEmpty(m).message(), m),
        has_infix(RulesErrorView::BadPattern(m, s).message(), m),
        has_infix(RulesErrorView::BadPattern(m, s).message(), s),
{
    let start = "rule match='"@;
    let none = Seq::<char>::empty();
    let a = RulesErrorView::MoveNeedsDest(m).message();
    lemma_named(a, start, m, "' action=move requires 'dest'"@);
    reveal_strlit("' action=move requires 'dest'");
    reveal_strlit("' action=move requires ");
    reveal_strlit("'dest'");
    assert("' action=move requires 'dest'"@ =~= "' action=move requires "@ + "'dest'"@);
    lemma_named(a, start + m + "' action=move requires "@, "'dest'"@, none);
    let b = RulesErrorView::DeleteIfAbsentNeedsCheck(m).message();
    lemma_named(b, start, m, "' action=delete_if_absent requires 'check'"@);
    reveal_strlit("' action=delete_if_absent requires 'check'");
    reveal_strlit("' action=delete_if_absent requires ");
    reveal_strlit("'check'");
    assert("' action=delete_if_absent requires 'check'"@
        =~= "' action=delete_if_absent requires "@ + "'check'"@);
    lemma_named(b, start + m + "' action=delete_if_absent requires "@, "'check'"@, none);
    let c = RulesErrorView::ReconcileNeedsTargets(m).message();
    lemma_named(c, start, m, "' action=reconcile requires 'check' and 'dest'"@);
    reveal_strlit("' action=reconcile requires 'check' and 'dest'");
    reveal_strlit("' action=reconcile requires ");
    reveal_strlit("'check' and 'dest'");
    assert("' action=reconcile requires 'check' and 'dest'"@ =~= "' action=reconcile requires "@
        + "'check' and 'dest'"@);
    lemma_named(c, start + m + "' action=reconcile requires "@, "'check' and 'dest'"@, none);
    let d = RulesErrorView::ClassifyNeedsTargets(m).message();
    lemma_named(d, start, m, "' action=classify requires 'aux_dest' and 'insight_repo'"@);
    reveal_strlit("' action=classify requires 'aux_dest' and 'insight_repo'");
    reveal_strlit("' action=classify requires ");
    reveal_strlit("'aux_dest' and 'insight_repo'");
    assert("' action=classify requires 'aux_dest' and 'insight_repo'"@
        =~= "' action=classify requires "@ + "'aux_dest' and 'insight_repo'"@);
    lemma_named(
        d,
        start + m + "' action=classify requires "@,
        "'aux_dest' and 'insight_repo'"@,
        none,
    );
    let e = RulesErrorView::ClassesUnreadable(m).message();
    let f = RulesErrorView::ClassesMalformed(m).message();
    lemma_named(e, "read classes_file '"@, m, "'"@);
    lemma_named(f, "parse classes_file '"@, m, "'"@);
    reveal_strlit("read classes_file '");
    reveal_strlit("parse classes_file '");
    assert(e[0] != f[0]);
    let o = RulesErrorView::ClassesOverlap(m, images).message();
    lemma_named(
        o,
        "classify rule match='"@,
        m,
        "': image(s) on BOTH insight and aux lists: "@ + joined(images, ", "@),
    );
    lemma_named(
        o,
        "classify rule match='"@ + m + "': image(s) on BOTH insight and aux lists: "@,
        joined(images, ", "@),
        none,
    );
    lemma_named(
        RulesErrorView::ClassifyEmpty(m).message(),
        start,
        m,
        "' action=classify has no images (set classes_file or inline lists)"@,
    );
    let x = RulesErrorView::BadPattern(m, s).message();
    lemma_named(x, "compile regex for match '"@, m, "' (resolved: '"@ + s + "')"@);
    lemma_named(x, "compile regex for match '"@ + m + "' (resolved: '"@, s, "')"@);
}

/// A classifying rule needs an image on one of its lists, not on both.
pub proof fn law_one_list_is_enough(r: Rule, files: Seq<(Seq<Seq<char>>, ClassesView)>)
    requires
        r.action == Action::Classify,
        r.aux_dest is Some,
        r.insight_repo is Some,
        image_classes(r, files) is Ok,
    ensures
        image_classes(r, files)->Ok_0.0.len() > 0 ==> checked_classes(r, files) == image_classes(
            r,
            files,
        ),
        image_classes(r, files)->Ok_0.1.len() > 0 ==> checked_classes(r, files) == image_classes(
            r,
            files,
        ),
{
}

/// A mismatch can be shown exactly where both its digests can.
pub proof fn law_mismatch_is_shown_with_both_digests(m: MismatchInfoView)
    ensures
        showable(m) ==> shortenable(m.source_digest),
        showable(m) ==> shortenable(m.check_digest),
        shortenable(m.source_digest) && shortenable(m.check_digest) ==> showable(m),
{
}

} // verus!
