//! What planning and applying the reorganisation of helm repositories promises.
use crate::laws::seqs::{is_first, law_collecting, law_first_that_passes};
use crate::laws::text::{
    law_joined_lists, law_prefix_is_followed_by_the_rest, law_split_at_the_first,
};
use crate::ordered::{key1, key3, lookup};
use crate::reorg::compile::under_prefix;
use crate::reorg::patterns::{regex_compiles, regex_matches};
use crate::reorg_helm::{
    chart_versions, class_matches, classified, compile_result, group_result, helm_step,
    pattern_result, planned, retire_line, rule_action, rule_result, step_under, third_party,
    unclassified_lines, unmatched, with_group, ApplySelection, ChartVersionView, CompiledGroupView,
    HelmActionView, HelmRule, HelmRulesErrorView, HelmRulesFile, HelmStepView, PlanView,
    PlannedOpView,
};
use crate::seqs::{lemma_filter_map_push, lemma_spread_contains, spread};
use crate::text::{find_char, has_prefix, joined, lemma_find_char, pieces, trimmed};
use vstd::prelude::*;

verus! {

/// A rule says in so many words that it moves, or says nothing.
pub open spec fn says_move(r: HelmRule) -> bool {
    r.action is None || r.action.deep_view() == Some("move"@)
}

/// The names of the actions differ.
proof fn lemma_action_names()
    ensures
        "move"@ != "delete"@,
        "move"@ != "delete-if-on-authority"@,
        "delete"@ != "delete-if-on-authority"@,
{
    reveal_strlit("move");
    reveal_strlit("delete");
    reveal_strlit("delete-if-on-authority");
    assert("move"@.len() == 4);
    assert("delete"@.len() == 6);
    assert("delete-if-on-authority"@.len() == 22);
}

/// A rule with a destination moves there, whether it says so or says nothing; one
/// without a destination is refused.
pub proof fn law_rule_with_a_destination_moves(source: Seq<char>, r: HelmRule)
    requires
        says_move(r),
    ensures
        r.dest.deep_view() matches Some(d) ==> rule_action(source, r) == Ok::<
            HelmActionView,
            HelmRulesErrorView,
        >(HelmActionView::Move { dest: d }),
        r.dest is None ==> rule_action(source, r) == Err::<HelmActionView, HelmRulesErrorView>(
            HelmRulesErrorView::MoveNeedsDest(source, r.class@),
        ),
{
    lemma_action_names();
}

/// The two deleting actions are known by their names, with or without a
/// destination.
pub proof fn law_deleting_rules_are_known_by_name(source: Seq<char>, r: HelmRule)
    ensures
        r.action.deep_view() == Some("delete"@) ==> rule_action(source, r) == Ok::<
            HelmActionView,
            HelmRulesErrorView,
        >(HelmActionView::Delete),
        r.action.deep_view() == Some("delete-if-on-authority"@) ==> rule_action(source, r) == Ok::<
            HelmActionView,
            HelmRulesErrorView,
        >(HelmActionView::DeleteIfOnAuthority),
{
    lemma_action_names();
}

/// An action is unknown exactly where its text is none of the three names.
pub proof fn law_unknown_action_is_none_of_the_names(source: Seq<char>, r: HelmRule)
    ensures
        (rule_action(source, r) matches Err(e) && e is UnknownAction) <==> (
        r.action.deep_view() matches Some(a) && a != "move"@ && a != "delete"@ && a
            != "delete-if-on-authority"@),
        rule_action(source, r) matches Err(HelmRulesErrorView::UnknownAction(a)) ==> Some(a)
            == r.action.deep_view(),
{
    lemma_action_names();
}

/// A rule compiles to its class and its action exactly where its class is a named
/// pattern and its action is sound.
pub proof fn law_rule_needs_a_named_pattern(
    patterns: Seq<(Seq<Seq<char>>, Seq<char>)>,
    source: Seq<char>,
    r: HelmRule,
)
    ensures
        lookup(patterns, key1(r.class@)) is None ==> rule_result(patterns, source)(r) == Err::<
            (Seq<char>, HelmActionView),
            HelmRulesErrorView,
        >(HelmRulesErrorView::UnknownPattern(source, r.class@)),
        lookup(patterns, key1(r.class@)) is Some && says_move(r) && r.dest is Some ==> rule_result(
            patterns,
            source,
        )(r) == Ok::<(Seq<char>, HelmActionView), HelmRulesErrorView>(
            (r.class@, HelmActionView::Move { dest: r.dest->Some_0@ }),
        ),
        rule_result(patterns, source)(r) matches Ok(c) ==> c.0 == r.class@ && lookup(
            patterns,
            key1(r.class@),
        ) is Some && rule_action(source, r) == Ok::<HelmActionView, HelmRulesErrorView>(c.1),
{
    if says_move(r) {
        law_rule_with_a_destination_moves(source, r);
    }
}

/// A rules file compiles to its groups in order, each with its source, its rules in
/// order and whether it retires, where every pattern is a regular expression and
/// every rule compiles; else it does not compile.
pub proof fn law_file_compiles_rule_by_rule(file: HelmRulesFile)
    ensures
        compile_result(file) matches Ok(gs) ==> gs.len() == file.groups@.len() && forall|i: int|
            0 <= i < gs.len() ==> (#[trigger] gs[i]).source == file.groups@[i].source@
                && gs[i].retire == file.groups@[i].retire && gs[i].rules.len()
                == file.groups@[i].rules@.len(),
        compile_result(file) matches Ok(gs) ==> forall|i: int, k: int|
            0 <= i < gs.len() && 0 <= k < file.groups@[i].rules@.len() ==> rule_result(
                file.patterns@,
                file.groups@[i].source@,
            )(#[trigger] file.groups@[i].rules@[k]) == Ok::<
                (Seq<char>, HelmActionView),
                HelmRulesErrorView,
            >(gs[i].rules[k]),
        compile_result(file) is Ok ==> forall|i: int|
            0 <= i < file.patterns@.len() ==> regex_compiles((#[trigger] file.patterns@[i]).1),
        (forall|i: int|
            0 <= i < file.patterns@.len() ==> regex_compiles((#[trigger] file.patterns@[i]).1))
            && (forall|i: int, k: int|
            0 <= i < file.groups@.len() && 0 <= k < file.groups@[i].rules@.len() ==> rule_result(
                file.patterns@,
                file.groups@[i].source@,
            )(#[trigger] file.groups@[i].rules@[k]) is Ok) ==> compile_result(file) is Ok,
{
    let ps = file.patterns@.map_values(pattern_result());
    let rs = file.groups@.map_values(group_result(file.patterns@));
    law_collecting(ps);
    law_collecting(rs);
    assert forall|i: int| 0 <= i < file.groups@.len() implies (group_result(file.patterns@)(
        #[trigger] file.groups@[i],
    ) is Ok <==> collect_ok_rules(file, i)) by {
        law_collecting(
            file.groups@[i].rules@.map_values(
                rule_result(file.patterns@, file.groups@[i].source@),
            ),
        );
        assert forall|k: int| 0 <= k < file.groups@[i].rules@.len() implies (
        #[trigger] file.groups@[i].rules@.map_values(
            rule_result(file.patterns@, file.groups@[i].source@),
        )[k]) == rule_result(file.patterns@, file.groups@[i].source@)(
            file.groups@[i].rules@[k],
        ) by {}
        let all = file.groups@[i].rules@.map_values(
            rule_result(file.patterns@, file.groups@[i].source@),
        );
        if collect_ok_rules(file, i) {
            assert forall|k: int| 0 <= k < all.len() implies (#[trigger] all[k]) is Ok by {
                assert(rule_result(file.patterns@, file.groups@[i].source@)(
                    file.groups@[i].rules@[k],
                ) is Ok);
            }
        } else {
            let k = choose|k: int|
                0 <= k < file.groups@[i].rules@.len() && !(rule_result(
                    file.patterns@,
                    file.groups@[i].source@,
                )(#[trigger] file.groups@[i].rules@[k]) is Ok);
            assert(!(all[k] is Ok));
        }
    }
    if compile_result(file) is Ok {
        let gs = compile_result(file)->Ok_0;
        assert forall|i: int| 0 <= i < file.patterns@.len() implies regex_compiles(
            (#[trigger] file.patterns@[i]).1,
        ) by {
            assert(ps[i] is Ok);
        }
        assert forall|i: int| 0 <= i < gs.len() implies (#[trigger] gs[i]).source
            == file.groups@[i].source@ && gs[i].retire == file.groups@[i].retire
            && gs[i].rules.len() == file.groups@[i].rules@.len() && group_rules_agree(
            file,
            i,
            gs[i],
        ) by {
            assert(rs[i] == Ok::<CompiledGroupView, HelmRulesErrorView>(gs[i]));
            let all = file.groups@[i].rules@.map_values(
                rule_result(file.patterns@, file.groups@[i].source@),
            );
            law_collecting(all);
            assert(rs[i] == group_result(file.patterns@)(file.groups@[i]));
            assert forall|k: int| 0 <= k < file.groups@[i].rules@.len() implies rule_result(
                file.patterns@,
                file.groups@[i].source@,
            )(#[trigger] file.groups@[i].rules@[k]) == Ok::<
                (Seq<char>, HelmActionView),
                HelmRulesErrorView,
            >(gs[i].rules[k]) by {
                assert(all[k] == Ok::<(Seq<char>, HelmActionView), HelmRulesErrorView>(
                    gs[i].rules[k],
                ));
            }
        }
        assert forall|i: int, k: int|
            0 <= i < gs.len() && 0 <= k < file.groups@[i].rules@.len() implies rule_result(
            file.patterns@,
            file.groups@[i].source@,
        )(#[trigger] file.groups@[i].rules@[k]) == Ok::<
            (Seq<char>, HelmActionView),
            HelmRulesErrorView,
        >(gs[i].rules[k]) by {
            assert(group_rules_agree(file, i, gs[i]));
        }
    }
    if (forall|i: int|
        0 <= i < file.patterns@.len() ==> regex_compiles((#[trigger] file.patterns@[i]).1)) && (
    forall|i: int, k: int|
        0 <= i < file.groups@.len() && 0 <= k < file.groups@[i].rules@.len() ==> rule_result(
            file.patterns@,
            file.groups@[i].source@,
        )(#[trigger] file.groups@[i].rules@[k]) is Ok) {
        assert forall|i: int| 0 <= i < ps.len() implies (#[trigger] ps[i]) is Ok by {
            assert(regex_compiles(file.patterns@[i].1));
        }
        assert forall|i: int| 0 <= i < rs.len() implies (#[trigger] rs[i]) is Ok by {
            assert(collect_ok_rules(file, i));
            assert(group_result(file.patterns@)(file.groups@[i]) is Ok);
        }
    }
}

/// Every rule of a group compiles.
spec fn collect_ok_rules(file: HelmRulesFile, i: int) -> bool {
    forall|k: int|
        0 <= k < file.groups@[i].rules@.len() ==> rule_result(
            file.patterns@,
            file.groups@[i].source@,
        )(#[trigger] file.groups@[i].rules@[k]) is Ok
}

/// A compiled group has the rules of its group.
spec fn group_rules_agree(file: HelmRulesFile, i: int, g: CompiledGroupView) -> bool {
    forall|k: int|
        0 <= k < file.groups@[i].rules@.len() ==> rule_result(
            file.patterns@,
            file.groups@[i].source@,
        )(#[trigger] file.groups@[i].rules@[k]) == Ok::<
            (Seq<char>, HelmActionView),
            HelmRulesErrorView,
        >(g.rules[k])
}

/// The first rule of a group whose pattern matches a version decides.
pub proof fn law_first_matching_class_decides(
    patterns: Seq<(Seq<Seq<char>>, Seq<char>)>,
    group: CompiledGroupView,
    version: Seq<char>,
    i: int,
)
    ensures
        0 <= i < group.rules.len() && class_holds(patterns, group.rules[i].0, version) && (forall|
            j: int,
        |
            0 <= j < i ==> !class_holds(patterns, (#[trigger] group.rules[j]).0, version))
            ==> classified(patterns, group, version) == Some(group.rules[i]),
        classified(patterns, group, version) is None <==> forall|j: int|
            0 <= j < group.rules.len() ==> !class_holds(
                patterns,
                (#[trigger] group.rules[j]).0,
                version,
            ),
{
    let p = class_matches(patterns, version);
    law_first_that_passes(group.rules, p);
    if 0 <= i < group.rules.len() && class_holds(patterns, group.rules[i].0, version) && (forall|
        j: int,
    |
        0 <= j < i ==> !class_holds(patterns, (#[trigger] group.rules[j]).0, version)) {
        assert forall|j: int| 0 <= j < i implies !p(#[trigger] group.rules[j]) by {
            assert(!class_holds(patterns, group.rules[j].0, version));
        }
        assert(is_first(group.rules, p, i));
    }
    if classified(patterns, group, version) is None {
        assert forall|j: int| 0 <= j < group.rules.len() implies !class_holds(
            patterns,
            (#[trigger] group.rules[j]).0,
            version,
        ) by {
            assert(!p(group.rules[j]));
        }
    }
    if forall|j: int|
        0 <= j < group.rules.len() ==> !class_holds(
            patterns,
            (#[trigger] group.rules[j]).0,
            version,
        ) {
        assert forall|j: int| 0 <= j < group.rules.len() implies !p(#[trigger] group.rules[j]) by {
            assert(!class_holds(patterns, group.rules[j].0, version));
        }
    }
}

/// The pattern of a class matches a version.
pub open spec fn class_holds(
    patterns: Seq<(Seq<Seq<char>>, Seq<char>)>,
    class: Seq<char>,
    version: Seq<char>,
) -> bool {
    lookup(patterns, key1(class)) matches Some(re) && regex_matches(re, version)
}

/// A chart is one of ours.
pub open spec fn is_ours(first_party: Seq<Seq<char>>, name: Seq<char>) -> bool {
    exists|i: int, rest: Seq<char>|
        0 <= i < first_party.len() && name == #[trigger] (first_party[i] + rest)
}

/// A chart is first-party exactly where its name begins with one of the prefixes.
proof fn lemma_ours(first_party: Seq<Seq<char>>, name: Seq<char>)
    ensures
        under_prefix(first_party, name) <==> is_ours(first_party, name),
{
    if under_prefix(first_party, name) {
        let i = choose|i: int|
            0 <= i < first_party.len() && has_prefix(name, #[trigger] first_party[i]);
        law_prefix_is_followed_by_the_rest(name, first_party[i]);
        let rest = choose|rest: Seq<char>| name == #[trigger] (first_party[i] + rest);
        assert(name == first_party[i] + rest);
    }
    if is_ours(first_party, name) {
        let (i, rest) = choose|i: int, rest: Seq<char>|
            0 <= i < first_party.len() && name == #[trigger] (first_party[i] + rest);
        law_prefix_is_followed_by_the_rest(name, first_party[i]);
    }
}

/// One version more of an index: a third-party chart is counted as skipped and
/// nothing else; one of ours is planned for what its class asks, or is listed as
/// unclassified where no class matches.
pub proof fn law_each_version_goes_to_one_place(
    p: PlanView,
    patterns: Seq<(Seq<Seq<char>>, Seq<char>)>,
    first_party: Seq<Seq<char>>,
    group: CompiledGroupView,
    versions: Seq<ChartVersionView>,
    v: ChartVersionView,
)
    ensures
        with_group(p, patterns, first_party, group, Seq::empty()) == p,
        ({
            let before = with_group(p, patterns, first_party, group, versions);
            let after = with_group(p, patterns, first_party, group, versions.push(v));
            if !is_ours(first_party, v.name) {
                after == (PlanView {
                    third_party_skipped: before.third_party_skipped + 1,
                    ..before
                })
            } else {
                match classified(patterns, group, v.version) {
                    Some(c) => after == (PlanView {
                        ops: before.ops.push(
                            PlannedOpView {
                                source: group.source,
                                name: v.name,
                                version: v.version,
                                digest: v.digest,
                                class: c.0,
                                action: c.1,
                            },
                        ),
                        ..before
                    }),
                    None => after == (PlanView {
                        unclassified: before.unclassified.push((group.source, v)),
                        ..before
                    }),
                }
            }
        }),
{
    lemma_ours(first_party, v.name);
    let none = Seq::<ChartVersionView>::empty();
    let f = planned(patterns, first_party, group);
    let h = unmatched(patterns, first_party, group);
    let t = third_party(first_party);
    reveal(Seq::filter);
    assert(with_group(p, patterns, first_party, group, none) =~= p) by {
        assert(p.ops + none.filter_map(f) =~= p.ops);
        assert(p.unclassified + none.filter_map(h) =~= p.unclassified);
        assert(none.filter(t).len() == 0);
    }
    lemma_filter_map_push(versions, f, v);
    lemma_filter_map_push(versions, h, v);
    versions.lemma_filter_push(v, t);
    let before = with_group(p, patterns, first_party, group, versions);
    let after = with_group(p, patterns, first_party, group, versions.push(v));
    if let Some(op) = f(v) {
        assert(after.ops =~= before.ops.push(op));
    }
    if let Some(u) = h(v) {
        assert(after.unclassified =~= before.unclassified.push(u));
    }
}

/// A selected move goes to its destination, and a selected delete deletes,
/// whatever the authority serves.
pub proof fn law_selected_operations_are_done(
    o: PlannedOpView,
    sel: ApplySelection,
    authority: Option<Seq<Seq<Seq<char>>>>,
)
    ensures
        sel.moves && o.action is Move ==> helm_step(o, sel, authority) == HelmStepView::Move(
            o.action->dest,
        ),
        sel.deletes && o.action is Delete ==> helm_step(o, sel, authority) is Delete,
        helm_step(o, sel, authority) is Move ==> o.action is Move && sel.moves,
        helm_step(o, sel, authority) is Delete ==> o.action is Delete && sel.deletes,
        helm_step(o, sel, authority) is VerifiedDelete ==> o.action is DeleteIfOnAuthority
            && sel.verify_deletes && authority is Some,
{
}

/// The pieces of a text are the only parts without the separator that it joins.
pub proof fn law_pieces_are_the_only_parts(names: Seq<Seq<char>>, c: char)
    requires
        names.len() > 0,
        forall|i: int| 0 <= i < names.len() ==> !(#[trigger] names[i]).contains(c),
    ensures
        pieces(joined(names, seq![c]), c) == names,
    decreases names.len(),
{
    let first = names[0];
    let s = joined(names, seq![c]);
    if names.len() == 1 {
        law_split_at_the_first(first, c, Seq::empty());
        lemma_find_char(s, c, 0);
        assert(pieces(s, c) =~= names);
    } else {
        let rest = names.skip(1);
        assert(names =~= seq![first] + rest);
        law_joined_lists(seq![first], rest, seq![c]);
        assert forall|i: int| 0 <= i < rest.len() implies !(#[trigger] rest[i]).contains(c) by {
            assert(rest[i] == names[i + 1]);
        }
        law_pieces_are_the_only_parts(rest, c);
        let tail = joined(rest, seq![c]);
        assert(joined(seq![first], seq![c]) == first);
        assert(s == first + seq![c] + tail);
        law_split_at_the_first(first, c, tail);
        let k = find_char(s, c, 0);
        lemma_find_char(s, c, 0);
        assert(s[first.len() as int] == c);
        if k < first.len() {
            assert(first[k] == c);
            assert(first.contains(c));
        }
        assert(k == first.len());
        assert(s.take(k) =~= first);
        assert(s.skip(k + 1) =~= tail);
        assert(pieces(s, c) =~= names);
    }
}

/// Of names separated by commas, with white space around them, each selects its
/// group, `all` selects every group, and nothing else selects anything.
pub proof fn law_names_select_their_groups(
    names: Seq<Seq<char>>,
    spec: &str,
    r: ApplySelection,
)
    requires
        names.len() > 0,
        forall|i: int| 0 <= i < names.len() ==> !(#[trigger] names[i]).contains(','),
        spec@ == joined(names, seq![',']),
        call_ensures(ApplySelection::parse, (spec,), r),
    ensures
        r.moves <==> named(names, "move"@) || named(names, "all"@),
        r.deletes <==> named(names, "delete"@) || named(names, "all"@),
        r.verify_deletes <==> named(names, "verify-delete"@) || named(names, "all"@),
{
    law_pieces_are_the_only_parts(names, ',');
    lemma_named(names, "move"@);
    lemma_named(names, "delete"@);
    lemma_named(names, "verify-delete"@);
    lemma_named(names, "all"@);
}

/// Some name of a list is this one, but for white space around it.
pub open spec fn named(names: Seq<Seq<char>>, name: Seq<char>) -> bool {
    exists|i: int| 0 <= i < names.len() && trimmed(#[trigger] names[i]) == name
}

/// A name is among the trimmed names exactly where it is one of them.
proof fn lemma_named(names: Seq<Seq<char>>, name: Seq<char>)
    ensures
        names.map_values(|s: Seq<char>| trimmed(s)).contains(name) <==> named(names, name),
{
    let all = names.map_values(|s: Seq<char>| trimmed(s));
    if all.contains(name) {
        let i = choose|i: int| 0 <= i < all.len() && all[i] == name;
        assert(trimmed(names[i]) == name);
    }
    if named(names, name) {
        let i = choose|i: int| 0 <= i < names.len() && trimmed(#[trigger] names[i]) == name;
        assert(all[i] == name);
    }
}

/// No more than forty unclassified versions are listed, under a headline, and the
/// rest are told as a number.
pub proof fn law_unclassified_versions_are_listed(us: Seq<(Seq<char>, ChartVersionView)>)
    ensures
        unclassified_lines(us).len() == (if us.len() == 0 {
            0
        } else if us.len() <= 40 {
            us.len() + 1
        } else {
            42
        }),
        forall|i: int|
            0 <= i < us.len() && i < 40 ==> #[trigger] unclassified_lines(us)[i + 1] == "    "@
                + us[i].0 + ": "@ + us[i].1.name + ":"@ + us[i].1.version,
{
}

/// A repository that retires, and no other, is told about.
pub proof fn law_retiring_repositories_are_told(p: PlanView, g: CompiledGroupView)
    ensures
        retire_line(p)(g) is Some <==> g.retire,
{
}

/// Applying a plan decides on each of its operations, in order, by the same
/// selection and authority: a released version is deleted exactly where the
/// authority lists it with its digest.
pub proof fn law_every_operation_is_decided(
    ops: Seq<PlannedOpView>,
    sel: ApplySelection,
    authority: Option<Seq<Seq<Seq<char>>>>,
    i: int,
)
    requires
        0 <= i < ops.len(),
    ensures
        ({
            let steps = ops.map_values(step_under(sel, authority));
            let o = ops[i];
            let listed = authority is Some && authority->Some_0.contains(
                seq![o.name, o.version, o.digest],
            );
            &&& steps.len() == ops.len()
            &&& o.action is Move && sel.moves ==> steps[i] == HelmStepView::Move(o.action->dest)
            &&& o.action is Delete && sel.deletes ==> steps[i] is Delete
            &&& o.action is DeleteIfOnAuthority && sel.verify_deletes && listed
                ==> steps[i] is VerifiedDelete
            &&& o.action is DeleteIfOnAuthority && sel.verify_deletes && !listed ==> steps[i] is Skip
            &&& o.action is Move && !sel.moves ==> steps[i] is Nothing
            &&& o.action is Delete && !sel.deletes ==> steps[i] is Nothing
            &&& o.action is DeleteIfOnAuthority && !sel.verify_deletes ==> steps[i] is Nothing
        }),
{
    let o = ops[i];
    assert(key3(o.name, o.version, o.digest) =~= seq![o.name, o.version, o.digest]);
}

/// The versions of an index are those of its charts.
pub proof fn law_index_has_the_versions_of_its_charts(
    entries: Seq<(Seq<Seq<char>>, Seq<ChartVersionView>)>,
    v: ChartVersionView,
)
    ensures
        spread(entries, chart_versions()).contains(v) <==> exists|i: int|
            0 <= i < entries.len() && (#[trigger] entries[i]).1.contains(v),
{
    let f = chart_versions();
    lemma_spread_contains(entries, f, v);
    if spread(entries, f).contains(v) {
        let i = choose|i: int| 0 <= i < entries.len() && (#[trigger] f(entries[i])).contains(v);
        assert(entries[i].1.contains(v));
    }
    if exists|i: int| 0 <= i < entries.len() && (#[trigger] entries[i]).1.contains(v) {
        let i = choose|i: int| 0 <= i < entries.len() && (#[trigger] entries[i]).1.contains(v);
        assert(f(entries[i]).contains(v));
    }
}

} // verus!
