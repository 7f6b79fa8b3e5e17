//! What the printed plan of a helm reorganisation promises.
use crate::laws::manifest::lemma_sum_contains;
use crate::laws::rules::lemma_named;
use crate::ordered::{is_key, key1, lemma_sorted_keys, occurrences, sorted_keys, tally_of};
use crate::reorg_helm::{
    dest_line, helm_step, is_delete, is_verify, left_in, move_dest, op_from, op_lines, plan_lines,
    retire_line, unclassified_lines, ApplySelection, AuthorityConfig, ChartVersionView,
    CompiledGroupView, HelmActionView, HelmRulesErrorView, HelmStepView, PlanView, PlannedOpView,
};
use crate::seqs::{lemma_filter_map_contains, lemma_filter_map_push};
use crate::text::{decimal, has_infix, padded_left};
use vstd::prelude::*;

verus! {

/// How many operations move to a repository.
pub open spec fn moves_to(ops: Seq<PlannedOpView>, dest: Seq<char>) -> nat
    decreases ops.len(),
{
    if ops.len() == 0 {
        0
    } else {
        moves_to(ops.drop_last(), dest) + if ops.last().action == (HelmActionView::Move { dest }) {
            1nat
        } else {
            0
        }
    }
}

/// The moves to a repository are counted by the occurrences of its key.
proof fn lemma_moves_to(ops: Seq<PlannedOpView>, dest: Seq<char>)
    ensures
        occurrences(ops.filter_map(move_dest()), key1(dest)) == moves_to(ops, dest),
        moves_to(ops, dest) <= ops.len(),
    decreases ops.len(),
{
    reveal(Seq::filter);
    if ops.len() > 0 {
        let rest = ops.drop_last();
        let o = ops.last();
        lemma_moves_to(rest, dest);
        assert(rest.push(o) =~= ops);
        lemma_filter_map_push(rest, move_dest(), o);
        let before = rest.filter_map(move_dest());
        if let HelmActionView::Move { dest: d } = o.action {
            before.lemma_filter_push(key1(d), is_key(key1(dest)));
            if key1(d) == key1(dest) {
                assert(key1(d)[0] == key1(dest)[0]);
            }
        }
    } else {
        assert(ops.filter_map(move_dest()) =~= Seq::<Seq<Seq<char>>>::empty()) by {
            if ops.filter_map(move_dest()).len() > 0 {
                let k = ops.filter_map(move_dest())[0];
                assert(ops.filter_map(move_dest()).contains(k));
                lemma_filter_map_contains(ops, move_dest(), k);
            }
        }
    }
}

/// A line of the operations is a line of the plan.
proof fn lemma_in_plan(
    p: PlanView,
    authority: Option<AuthorityConfig>,
    groups: Seq<CompiledGroupView>,
    line: Seq<char>,
)
    requires
        op_lines(p, authority).contains(line) || unclassified_lines(p.unclassified).contains(line)
            || groups.filter_map(retire_line(p)).contains(line),
    ensures
        plan_lines(p, authority, groups).contains(line),
{
    let a = seq!["\n=== Helm reorg plan ==="@];
    let b = op_lines(p, authority);
    let c = unclassified_lines(p.unclassified);
    let d = groups.filter_map(retire_line(p));
    lemma_sum_contains(a, b, line);
    lemma_sum_contains(a + b, c, line);
    lemma_sum_contains(a + b + c, d, line);
}

/// Every destination is told with the number of the versions that move there.
pub proof fn law_every_destination_is_told(
    p: PlanView,
    authority: Option<AuthorityConfig>,
    groups: Seq<CompiledGroupView>,
    dest: Seq<char>,
    i: int,
)
    requires
        0 <= i < p.ops.len(),
        p.ops[i].action == (HelmActionView::Move { dest }),
        p.ops.len() <= usize::MAX,
    ensures
        plan_lines(p, authority, groups).contains(
            "  MOVE  "@ + padded_left(decimal(moves_to(p.ops, dest)), 5) + " chart-versions -> "@
                + dest,
        ),
{
    let keys = p.ops.filter_map(move_dest());
    assert(move_dest()(p.ops[i]) == Some(key1(dest)));
    lemma_filter_map_contains(p.ops, move_dest(), key1(dest));
    lemma_sorted_keys(keys);
    let sorted = sorted_keys(keys);
    assert(sorted.contains(key1(dest)));
    let j = choose|j: int| 0 <= j < sorted.len() && sorted[j] == key1(dest);
    lemma_moves_to(p.ops, dest);
    let rows = tally_of(keys);
    assert(rows[j] == (key1(dest), moves_to(p.ops, dest) as usize));
    let line = dest_line()(rows[j]);
    assert(key1(dest)[0] == dest);
    assert(rows.map_values(dest_line())[j] == line);
    assert(op_lines(p, authority)[j] == line);
    lemma_in_plan(p, authority, groups, line);
}

/// Deletions, and those that the authority has to confirm, are told with their
/// number where there are any; versions of other parties always are.
pub proof fn law_deletions_are_counted(
    p: PlanView,
    authority: Option<AuthorityConfig>,
    groups: Seq<CompiledGroupView>,
)
    ensures
        ({
            let lines = plan_lines(p, authority, groups);
            let deletes = p.ops.filter(|o: PlannedOpView| o.action is Delete).len();
            let verify = p.ops.filter(|o: PlannedOpView| o.action is DeleteIfOnAuthority).len();
            &&& deletes > 0 ==> lines.contains(
                "  DELETE "@ + padded_left(decimal(deletes), 4)
                    + " chart-versions (junk/superseded)"@,
            )
            &&& verify > 0 ==> lines.contains(
                "  VERIFY+DELETE "@ + padded_left(decimal(verify), 4)
                    + " released versions (drop locally iff upstream authority "@ + (
                match authority {
                    Some(c) => c.url@ + "/repository/"@ + c.repo@,
                    None => "<none configured>"@,
                }) + " serves the same digest)"@,
            )
            &&& lines.contains(
                "  SKIP  "@ + padded_left(decimal(p.third_party_skipped), 5)
                    + " third-party chart-versions (untouched)"@,
            )
        }),
{
    assert(is_delete() =~= |o: PlannedOpView| o.action is Delete);
    assert(is_verify() =~= |o: PlannedOpView| o.action is DeleteIfOnAuthority);
    let ops = op_lines(p, authority);
    let n = tally_of(p.ops.filter_map(move_dest())).len() as int;
    let deletes = p.ops.filter(is_delete()).len();
    let verify = p.ops.filter(is_verify()).len();
    let d = if deletes > 0 {
        1int
    } else {
        0
    };
    if deletes > 0 {
        assert(ops.contains(ops[n]));
        lemma_in_plan(p, authority, groups, ops[n]);
    }
    if verify > 0 {
        assert(ops.contains(ops[n + d]));
        lemma_in_plan(p, authority, groups, ops[n + d]);
    }
    assert(ops.contains(ops[ops.len() - 1]));
    lemma_in_plan(p, authority, groups, ops[ops.len() - 1]);
}

/// A repository to retire is told with what leaves it and what would remain.
pub proof fn law_retiring_repository_is_told(
    p: PlanView,
    authority: Option<AuthorityConfig>,
    groups: Seq<CompiledGroupView>,
    i: int,
)
    requires
        0 <= i < groups.len(),
        groups[i].retire,
    ensures
        ({
            let source = groups[i].source;
            let leave = p.ops.filter(|o: PlannedOpView| o.source == source).len();
            let remain = p.unclassified.filter(
                |u: (Seq<char>, ChartVersionView)| u.0 == source,
            ).len();
            let line = "\n  RETIRE '"@ + source + "' — "@ + decimal(leave)
                + " version(s) leave via move/delete; "@ + decimal(remain)
                + " unclassified would remain"@;
            let lines = plan_lines(p, authority, groups);
            &&& remain == 0 ==> lines.contains(
                line + " (repo will be empty of first-party charts)"@,
            )
            &&& remain > 0 ==> lines.contains(line + " (handle these before deleting the repo)"@)
        }),
{
    let g = groups[i];
    assert(op_from(g.source) =~= |o: PlannedOpView| o.source == g.source);
    assert(left_in(g.source) =~= |u: (Seq<char>, ChartVersionView)| u.0 == g.source);
    let line = retire_line(p)(g)->Some_0;
    assert(retire_line(p)(groups[i]) == Some(line));
    lemma_filter_map_contains(groups, retire_line(p), line);
    lemma_in_plan(p, authority, groups, line);
}

/// The unclassified versions are told with their number, and those that are not
/// listed too.
pub proof fn law_unclassified_versions_are_counted(us: Seq<(Seq<char>, ChartVersionView)>)
    ensures
        us.len() > 0 ==> unclassified_lines(us)[0] == "\n  UNCLASSIFIED ("@ + decimal(us.len())
            + ") — first-party but no rule matched; NOTHING will be done:"@,
        us.len() > 40 ==> unclassified_lines(us).last() == "    … and "@ + decimal(
            (us.len() - 40) as nat,
        ) + " more"@,
{
}

/// A released version that is kept is told by name and version.
pub proof fn law_kept_version_is_told(o: PlannedOpView, sel: ApplySelection)
    requires
        o.action is DeleteIfOnAuthority,
        sel.verify_deletes,
    ensures
        helm_step(o, sel, None) == HelmStepView::Skip(
            "  SKIP delete "@ + o.name + ":"@ + o.version
                + " — authority does not serve this exact digest; republish upstream before removing the local copy"@,
        ),
{
}

/// The message of an error names what it is about: the pattern, the group, the class
/// or the action.
pub proof fn law_messages_name_what_is_wrong(g: Seq<char>, c: Seq<char>)
    ensures
        has_infix(HelmRulesErrorView::BadPattern(c).message(), c),
        has_infix(HelmRulesErrorView::UnknownPattern(g, c).message(), g),
        has_infix(HelmRulesErrorView::UnknownPattern(g, c).message(), c),
        has_infix(HelmRulesErrorView::MoveNeedsDest(g, c).message(), g),
        has_infix(HelmRulesErrorView::MoveNeedsDest(g, c).message(), c),
        has_infix(HelmRulesErrorView::UnknownAction(c).message(), c),
{
    lemma_named(
        HelmRulesErrorView::BadPattern(c).message(),
        "bad regex for pattern '"@,
        c,
        "'"@,
    );
    let u = HelmRulesErrorView::UnknownPattern(g, c).message();
    lemma_named(u, "group '"@, g, "' references unknown pattern '"@ + c + "'"@);
    lemma_named(u, "group '"@ + g + "' references unknown pattern '"@, c, "'"@);
    let m = HelmRulesErrorView::MoveNeedsDest(g, c).message();
    lemma_named(m, "group '"@, g, "' rule for class '"@ + c + "' is a move but has no dest"@);
    lemma_named(m, "group '"@ + g + "' rule for class '"@, c, "' is a move but has no dest"@);
    lemma_named(HelmRulesErrorView::UnknownAction(c).message(), "unknown action '"@, c, "'"@);
}

} // verus!
