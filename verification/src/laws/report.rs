//! What the report of a docker reorganisation plan promises.
use crate::laws::manifest::lemma_sum_contains;
use crate::laws::text::{between, law_infix_stands_between};
use crate::laws::upstream::{lemma_sorted_contains, lemma_sorted_groups};
use crate::ordered::{
    group_by, is_key, key1, key2, key3, keys_of, lemma_sorted_keys, lemma_values_count, lookup,
    occurrences, sorted_groups, sorted_keys, sorted_texts, tally_of, value_under, values_for,
};
use crate::reorg::collisions::SupersededItemView;
use crate::reorg::config::group_of;
use crate::reorg::evidence::{short_digest, MismatchInfoView, TriageItemView};
use crate::reorg::plan::{DeleteItemView, PlannedMoveView, TagRefView};
use crate::reorg::report::{
    class_note, count_line, counted, counts, delete_line, delete_section, dest_line, dest_list,
    full_name, group_sections, image_line, image_lines, in_group, may_delete, mismatch_lines,
    mismatch_section, move_section, must_review, newer_lines, non_released_section, note_line,
    repo_items, retired_lines, retired_section, review_total, shown_date, source_list,
    summary_lines, superseded_line, untouched_line, DESC_REDUNDANT, DESC_SUPERSEDED,
};
use crate::reorg::resolve::{created_of, ResolvedView};
use crate::reorg::review::{
    absent_section, bracketed, candidate_lines, dated_items, dest_items, dest_moves, instant_of,
    is_stale, kept_section, move_line, plan_lines, policy_parts, purge_section, repo_keys,
    retention_line, retention_lines, review_lines, triage_items, triage_line, triage_section,
    triage_tag, unmatched_section, verbose_lines,
};
use crate::reorg::upstream::image_items;
use crate::seqs::{lemma_filter_map_contains, lemma_spread_contains, spread};
use crate::text::{decimal, has_infix, has_prefix, joined, padded_left, padded_right};
use crate::time::{whole_days, Timestamp};
use vstd::prelude::*;

verus! {

/// The deletes of a group: those whose reason begins with "superseded", or the others.
pub open spec fn with_reason(p: ResolvedView, superseded: bool) -> Seq<DeleteItemView> {
    p.deletes.filter(
        |d: DeleteItemView| has_prefix(d.reason, "superseded"@) == superseded,
    )
}

/// Every group is counted under its name.
pub proof fn law_groups_are_counted(p: ResolvedView)
    requires
        p.moves.len() <= usize::MAX,
        p.deletes.len() <= usize::MAX,
        p.mismatched.len() <= usize::MAX,
        p.prefix_deletes.len() <= usize::MAX,
        p.non_released.len() <= usize::MAX,
    ensures
        ({
            let c = counts(p);
            &&& c.len() == 6
            &&& c[0].0 == "move"@ && c[0].1 == p.moves.len()
            &&& c[1].0 == "redundant"@ && c[1].1 == with_reason(p, false).len()
            &&& c[2].0 == "superseded"@ && c[2].1 == with_reason(p, true).len()
            &&& c[1].1 + c[2].1 == p.deletes.len()
            &&& c[3].0 == "mismatch"@ && c[3].1 == p.mismatched.filter(
                |m: MismatchInfoView| m.deletable(),
            ).len()
            &&& c[4].0 == "retired"@ && c[4].1 == p.prefix_deletes.len()
            &&& c[5].0 == "non-released"@ && c[5].1 == p.non_released.len()
        }),
{
    reveal_strlit("redundant");
    reveal_strlit("superseded");
    assert("redundant"@[0] != "superseded"@[0]);
    let f = |d: DeleteItemView| has_prefix(d.reason, "superseded"@) == false;
    let g = |d: DeleteItemView| has_prefix(d.reason, "superseded"@) == true;
    assert(in_group("redundant"@) =~= f);
    assert(in_group("superseded"@) =~= g);
    assert(may_delete() =~= |m: MismatchInfoView| m.deletable());
    lemma_two_parts(p.deletes, f, g);
    p.deletes.lemma_filter_len(f);
    p.deletes.lemma_filter_len(g);
    p.mismatched.lemma_filter_len(may_delete());
}

/// What passes one of two opposite tests adds up to the whole.
proof fn lemma_two_parts<T>(s: Seq<T>, f: spec_fn(T) -> bool, g: spec_fn(T) -> bool)
    requires
        forall|x: T| #[trigger] f(x) == !g(x),
    ensures
        s.filter(f).len() + s.filter(g).len() == s.len(),
    decreases s.len(),
{
    reveal(Seq::filter);
    if s.len() > 0 {
        lemma_two_parts(s.drop_last(), f, g);
        assert(f(s.last()) == !g(s.last()));
    }
}

/// What is left for review and what may be deleted of the mismatches make up all
/// that no other group touches.
pub proof fn law_review_total_is_the_rest(p: ResolvedView)
    ensures
        review_total(p) + p.mismatched.filter(|m: MismatchInfoView| m.deletable()).len()
            == p.mismatched.len() + p.insight_absent.len() + p.superseded.len()
            + p.copy_upstream.len() + p.needs_classification.len() + p.leaves.len()
            + p.kept.len(),
{
    let f = |m: MismatchInfoView| m.deletable();
    lemma_two_parts(p.mismatched, f, must_review());
}

/// The summary has a line for each group, with its name, number and description.
pub proof fn law_summary_has_every_group(p: ResolvedView, copy: bool, i: int)
    requires
        0 <= i < 6,
    ensures
        summary_lines(p, copy).contains(
            "    "@ + padded_right("--apply "@ + counts(p)[i].0, 22) + " "@ + padded_left(
                decimal(counts(p)[i].1 as nat),
                6,
            ) + " tag(s)   "@ + counts(p)[i].2,
        ),
        p.non_released_note matches Some(n) ==> summary_lines(p, copy).contains(
            "    (non-released count unavailable — "@ + n + ")"@,
        ),
        summary_lines(p, copy).last() == "Already in the right place (no change needed): "@
            + decimal(p.already_placed),
{
    let head = seq![
        "Nothing is changed until you re-run with --apply. Each line below is one"@,
        "independent group — pass the ones you want (comma-separated), or 'all':"@,
        ""@,
    ];
    let rows = counts(p).map_values(count_line());
    let note = note_line(
        "    (non-released count unavailable — "@,
        p.non_released_note,
        ")"@,
    );
    let lines = summary_lines(p, copy);
    assert(rows[i] == count_line()(counts(p)[i]));
    assert(lines[3 + i] == rows[i]);
    if let Some(n) = p.non_released_note {
        assert(note[0] == "    (non-released count unavailable — "@ + n + ")"@);
        assert(lines[(3 + rows.len()) as int] == note[0]);
    }
}

/// A line of a section is a line of the report.
proof fn lemma_in_sections(
    p: ResolvedView,
    copy: bool,
    verbose: bool,
    classes: Seq<(Seq<Seq<char>>, Seq<Seq<char>>)>,
    line: Seq<char>,
)
    requires
        move_section(p, copy, verbose, classes).contains(line) || delete_section(
            p,
            "redundant"@,
            DESC_REDUNDANT@,
        ).contains(line) || delete_section(
            p,
            "superseded"@,
            DESC_SUPERSEDED@,
        ).contains(line) || newer_lines(p).contains(line) || mismatch_section(p).contains(line)
            || retired_section(p).contains(line) || non_released_section(p).contains(line),
    ensures
        group_sections(p, copy, verbose, classes).contains(line),
        plan_lines(p, copy, verbose, classes).contains(line),
{
    let a = move_section(p, copy, verbose, classes);
    let b = delete_section(p, "redundant"@, DESC_REDUNDANT@);
    let c = delete_section(p, "superseded"@, DESC_SUPERSEDED@);
    let d = newer_lines(p);
    let e = mismatch_section(p);
    let f = retired_section(p);
    let g = non_released_section(p);
    lemma_sum_contains(a, b, line);
    lemma_sum_contains(a + b, c, line);
    lemma_sum_contains(a + b + c, d, line);
    lemma_sum_contains(a + b + c + d, e, line);
    lemma_sum_contains(a + b + c + d + e, f, line);
    lemma_sum_contains(a + b + c + d + e + f, g, line);
    let head = seq!["================ Reorg plan ================"@];
    lemma_sum_contains(head, summary_lines(p, copy), line);
    lemma_sum_contains(
        head + summary_lines(p, copy),
        group_sections(p, copy, verbose, classes),
        line,
    );
    lemma_sum_contains(
        head + summary_lines(p, copy) + group_sections(p, copy, verbose, classes),
        review_lines(p),
        line,
    );
}

/// Every delete is listed, with its tag and its date.
pub proof fn law_every_delete_is_listed(
    p: ResolvedView,
    copy: bool,
    verbose: bool,
    classes: Seq<(Seq<Seq<char>>, Seq<Seq<char>>)>,
    d: DeleteItemView,
)
    requires
        p.deletes.contains(d),
    ensures
        plan_lines(p, copy, verbose, classes).contains(
            "     "@ + d.tag.source_repo + "/"@ + d.tag.image + ":"@ + d.tag.tag + " (created "@ + (
            match lookup(p.created, seq![d.tag.source_repo, d.tag.image, d.tag.tag]) {
                Some(date) => date,
                None => "?"@,
            }) + ")"@,
        ),
{
    let t = d.tag;
    assert(key3(t.source_repo, t.image, t.tag) =~= seq![t.source_repo, t.image, t.tag]);
    let g = group_of(d);
    let f = delete_line(p, g);
    let line = "     "@ + full_name(t) + " (created "@ + created_of(p, t) + ")"@;
    assert(line =~= "     "@ + t.source_repo + "/"@ + t.image + ":"@ + t.tag + " (created "@
        + created_of(p, t) + ")"@);
    let i = choose|i: int| 0 <= i < p.deletes.len() && p.deletes[i] == d;
    assert(f(p.deletes[i]) == Some(line));
    lemma_filter_map_contains(p.deletes, f, line);
    lemma_sorted_contains(p.deletes.filter_map(f), line);
    let desc = if g == "superseded"@ {
        DESC_SUPERSEDED@
    } else {
        DESC_REDUNDANT@
    };
    let section = delete_section(p, g, desc);
    let body = sorted_texts(p.deletes.filter_map(f));
    lemma_sum_contains(
        seq![
            "\n▸ `--apply "@ + g + "` — "@ + desc + " — "@ + decimal(
                p.deletes.filter(in_group(g)).len(),
            ) + " to be deleted"@,
        ],
        body,
        line,
    );
    assert(section.contains(line));
    lemma_in_sections(p, copy, verbose, classes, line);
}

/// Every mismatch is shown with what becomes of it and with the evidence for both
/// copies.
pub proof fn law_every_mismatch_is_shown(
    p: ResolvedView,
    copy: bool,
    verbose: bool,
    classes: Seq<(Seq<Seq<char>>, Seq<Seq<char>>)>,
    m: MismatchInfoView,
)
    requires
        p.mismatched.contains(m),
    ensures
        ({
            let lines = plan_lines(p, copy, verbose, classes);
            let name = "     "@ + m.tag.source_repo + "/"@ + m.tag.image + ":"@ + m.tag.tag;
            &&& m.deletable() ==> lines.contains(name + "  [DELETE on --apply mismatch]"@)
            &&& !m.deletable() ==> lines.contains(name + "  [KEPT for review]"@)
            &&& lines.contains("            -> "@ + m.assessment())
            &&& lines.contains("            -> "@ + m.recommendation())
            &&& m.source_built matches Some(b) ==> lines.contains(
                "            source ("@ + m.tag.source_repo + "): created "@ + b + "  ["@
                    + short_digest(m.source_digest) + "]"@,
            )
            &&& m.check_built matches Some(b) ==> lines.contains(
                "            check  ("@ + m.check_repo + "): created "@ + b + "  ["@
                    + short_digest(m.check_digest) + "]"@,
            )
        }),
{
    let name = "     "@ + m.tag.source_repo + "/"@ + m.tag.image + ":"@ + m.tag.tag;
    let f = mismatch_lines();
    let own = f(m);
    reveal_strlit("  [");
    reveal_strlit("]");
    reveal_strlit("DELETE on --apply mismatch");
    reveal_strlit("  [DELETE on --apply mismatch]");
    reveal_strlit("KEPT for review");
    reveal_strlit("  [KEPT for review]");
    assert("     "@ + full_name(m.tag) =~= name);
    assert("  ["@ + "DELETE on --apply mismatch"@ + "]"@ =~= "  [DELETE on --apply mismatch]"@);
    assert("  ["@ + "KEPT for review"@ + "]"@ =~= "  [KEPT for review]"@);
    if m.deletable() {
        assert(own[0] =~= name + "  [DELETE on --apply mismatch]"@);
    } else {
        assert(own[0] =~= name + "  [KEPT for review]"@);
    }
    let i = choose|i: int| 0 <= i < p.mismatched.len() && p.mismatched[i] == m;
    assert forall|j: int| 0 <= j < own.len() implies plan_lines(
        p,
        copy,
        verbose,
        classes,
    ).contains(#[trigger] own[j]) by {
        assert(f(p.mismatched[i]).contains(own[j]));
        lemma_spread_contains(p.mismatched, f, own[j]);
        let head = mismatch_section(p).take(1);
        assert(mismatch_section(p) =~= head + spread(p.mismatched, f));
        lemma_sum_contains(head, spread(p.mismatched, f), own[j]);
        lemma_in_sections(p, copy, verbose, classes, own[j]);
    }
    assert(own[1] == own[1] && own[2] == own[2] && own[3] == own[3] && own[4] == own[4]);
}

/// Every newer copy that stays for review is shown, with what was kept instead.
pub proof fn law_every_newer_copy_is_shown(
    p: ResolvedView,
    copy: bool,
    verbose: bool,
    classes: Seq<(Seq<Seq<char>>, Seq<Seq<char>>)>,
    s: SupersededItemView,
)
    requires
        p.superseded.contains(s),
    ensures
        exists|rest: Seq<char>|
            plan_lines(p, copy, verbose, classes).contains(
                #[trigger] ("     "@ + s.tag.source_repo + "/"@ + s.tag.image + ":"@ + s.tag.tag
                    + rest),
            ) && has_infix(rest, s.kept),
{
    let f = superseded_line();
    let a = " (created "@ + shown_date(s.own_built) + ") — kept "@;
    let b = " (created "@ + shown_date(s.winner_built) + ")"@;
    let rest = a + s.kept + b;
    law_infix_stands_between(rest, s.kept);
    assert(between(rest, a, s.kept, b));
    let i = choose|i: int| 0 <= i < p.superseded.len() && p.superseded[i] == s;
    let line = f(s);
    let full = "     "@ + s.tag.source_repo + "/"@ + s.tag.image + ":"@ + s.tag.tag + rest;
    assert(line =~= full);
    let body = p.superseded.map_values(f);
    assert(body[i] == line);
    let head = newer_lines(p).take(1);
    assert(newer_lines(p) =~= head + body);
    lemma_sum_contains(head, body, line);
    lemma_in_sections(p, copy, verbose, classes, line);
}

/// A line shows a tag under its image: the image, then all its tags.
pub open spec fn shows_tag(line: Seq<char>, indent: Seq<char>, image: Seq<char>, tag: Seq<char>) -> bool {
    exists|ts: Seq<Seq<char>>|
        line == indent + image + ": "@ + #[trigger] joined(ts, ", "@) && ts.contains(tag)
}

/// Some line shows a tag.
pub open spec fn tag_is_shown(
    lines: Seq<Seq<char>>,
    indent: Seq<char>,
    image: Seq<char>,
    tag: Seq<char>,
) -> bool {
    exists|i: int| 0 <= i < lines.len() && shows_tag(#[trigger] lines[i], indent, image, tag)
}

/// A list of tags by image shows each of them.
proof fn lemma_image_lines(tags: Seq<TagRefView>, indent: Seq<char>, t: TagRefView) -> (i: int)
    requires
        tags.contains(t),
    ensures
        0 <= i < image_lines(tags, indent).len(),
        shows_tag(image_lines(tags, indent)[i], indent, t.image, t.tag),
{
    let items = image_items(tags);
    let k = choose|k: int| 0 <= k < tags.len() && tags[k] == t;
    assert(items[k] == (key1(t.image), t.tag));
    assert(items.contains((key1(t.image), t.tag)));
    lemma_sorted_groups(items, key1(t.image), t.tag);
    let gs = sorted_groups(group_by(items));
    let i = choose|i: int|
        0 <= i < gs.len() && (#[trigger] gs[i]).0 == key1(t.image) && gs[i].1.contains(t.tag);
    assert(image_lines(tags, indent)[i] == image_line(indent)(gs[i]));
    assert(gs[i].0[0] == t.image);
    i
}

/// A group of items by key has an item.
proof fn lemma_group_of<W>(items: Seq<(Seq<Seq<char>>, W)>, k: Seq<Seq<char>>, w: W) -> (i: int)
    requires
        items.contains((k, w)),
    ensures
        0 <= i < group_by(items).len(),
        group_by(items)[i].0 == k,
        group_by(items)[i].1 == values_for(items, k),
        group_by(items)[i].1.contains(w),
{
    let keys = keys_of(items);
    lemma_sorted_keys(keys);
    let sorted = sorted_keys(keys);
    let j = choose|j: int| 0 <= j < items.len() && items[j] == (k, w);
    assert(keys[j] == k);
    assert(sorted.contains(k));
    let i = choose|i: int| 0 <= i < sorted.len() && sorted[i] == k;
    assert(value_under::<W>(k)(items[j]) == Some(w));
    lemma_filter_map_contains(items, value_under(k), w);
    i
}

/// Every retired tag is shown under its repository and image.
pub proof fn law_every_retired_tag_is_shown(
    p: ResolvedView,
    copy: bool,
    verbose: bool,
    classes: Seq<(Seq<Seq<char>>, Seq<Seq<char>>)>,
    t: TagRefView,
)
    requires
        p.prefix_deletes.contains(t),
    ensures
        plan_lines(p, copy, verbose, classes).contains("     in "@ + t.source_repo + ":"@),
        tag_is_shown(plan_lines(p, copy, verbose, classes), "        "@, t.image, t.tag),
{
    let items = repo_items(p.prefix_deletes);
    let k = choose|k: int| 0 <= k < p.prefix_deletes.len() && p.prefix_deletes[k] == t;
    assert(items[k] == (key1(t.source_repo), t));
    assert(items.contains((key1(t.source_repo), t)));
    let g = lemma_group_of(items, key1(t.source_repo), t);
    let gs = group_by(items);
    let own = retired_lines()(gs[g]);
    let j = lemma_image_lines(gs[g].1, "        "@, t);
    let body = spread(gs, retired_lines());
    let head = retired_section(p).take(1);
    assert(retired_section(p) =~= head + body);
    let a = own[0];
    let b = own[j + 1];
    assert(gs[g].0[0] == t.source_repo);
    assert(b == image_lines(gs[g].1, "        "@)[j]);
    assert(own.contains(a) && own.contains(b));
    lemma_spread_contains(gs, retired_lines(), a);
    lemma_spread_contains(gs, retired_lines(), b);
    assert(retired_lines()(gs[g]).contains(a));
    assert(retired_lines()(gs[g]).contains(b));
    lemma_sum_contains(head, body, a);
    lemma_sum_contains(head, body, b);
    lemma_in_sections(p, copy, verbose, classes, a);
    lemma_in_sections(p, copy, verbose, classes, b);
    lemma_shown(plan_lines(p, copy, verbose, classes), "        "@, t, b);
}

/// A line that shows a tag among some lines.
proof fn lemma_shown(lines: Seq<Seq<char>>, indent: Seq<char>, t: TagRefView, line: Seq<char>)
    requires
        lines.contains(line),
        shows_tag(line, indent, t.image, t.tag),
    ensures
        tag_is_shown(lines, indent, t.image, t.tag),
{
    let i = choose|i: int| 0 <= i < lines.len() && lines[i] == line;
    assert(shows_tag(lines[i], indent, t.image, t.tag));
}

/// Where the upstream could be asked, every non-released tag and every tag to copy
/// upstream is shown; else the reason is.
pub proof fn law_cache_cleanup_is_shown(
    p: ResolvedView,
    copy: bool,
    verbose: bool,
    classes: Seq<(Seq<Seq<char>>, Seq<Seq<char>>)>,
    t: TagRefView,
)
    ensures
        ({
            let lines = plan_lines(p, copy, verbose, classes);
            &&& p.non_released_note matches Some(note) ==> lines.contains(
                "     unavailable — "@ + note,
            )
            &&& p.non_released_note is None && p.non_released.contains(t) ==> tag_is_shown(
                lines,
                "     "@,
                t.image,
                t.tag,
            )
            &&& p.non_released_note is None && p.copy_upstream.contains(t) ==> tag_is_shown(
                lines,
                "        "@,
                t.image,
                t.tag,
            )
        }),
{
    let lines = plan_lines(p, copy, verbose, classes);
    let section = non_released_section(p);
    let head = section.take(1);
    match p.non_released_note {
        Some(note) => {
            let line = "     unavailable — "@ + note;
            assert(section[1] == line);
            lemma_in_sections(p, copy, verbose, classes, line);
        },
        None => {
            let a = image_lines(p.non_released, "     "@);
            if p.non_released.contains(t) {
                let i = lemma_image_lines(p.non_released, "     "@, t);
                assert(section[i + 1] == a[i]);
                lemma_in_sections(p, copy, verbose, classes, a[i]);
                lemma_shown(lines, "     "@, t, a[i]);
            }
            if p.copy_upstream.contains(t) {
                let b = image_lines(p.copy_upstream, "        "@);
                let i = lemma_image_lines(p.copy_upstream, "        "@, t);
                assert(section[1 + a.len() + 1 + i] == b[i]);
                lemma_in_sections(p, copy, verbose, classes, b[i]);
                lemma_shown(lines, "        "@, t, b[i]);
            }
        },
    }
}

/// The destination of every move is shown with the number of its moves.
pub proof fn law_every_destination_is_counted(
    p: ResolvedView,
    copy: bool,
    verbose: bool,
    classes: Seq<(Seq<Seq<char>>, Seq<Seq<char>>)>,
    m: PlannedMoveView,
)
    requires
        p.moves.contains(m),
        p.moves.len() <= usize::MAX,
    ensures
        exists|note: Seq<char>|
            plan_lines(p, copy, verbose, classes).contains(
                #[trigger] ("     → "@ + padded_right(m.dest, 28) + " "@ + padded_left(
                    decimal(moves_to(p.moves, m.dest)),
                    7,
                ) + note),
            ),
{
    let keys = dest_list(p.moves);
    let k = choose|k: int| 0 <= k < p.moves.len() && p.moves[k] == m;
    assert(keys[k] == key1(m.dest));
    assert(keys.contains(key1(m.dest)));
    lemma_sorted_keys(keys);
    let sorted = sorted_keys(keys);
    assert(sorted.contains(key1(m.dest)));
    let i = choose|i: int| 0 <= i < sorted.len() && sorted[i] == key1(m.dest);
    let rows = tally_of(keys);
    lemma_moves_to(p.moves, m.dest);
    reveal(Seq::filter);
    keys.lemma_filter_len(is_key(key1(m.dest)));
    assert(rows[i] == (key1(m.dest), moves_to(p.moves, m.dest) as usize));
    let line = dest_line(classes)(rows[i]);
    let section = move_section(p, copy, verbose, classes);
    let body = rows.map_values(dest_line(classes));
    assert(body[i] == line);
    assert(section[i + 1] == line);
    let note = class_note(classes, key1(m.dest));
    assert(key1(m.dest)[0] == m.dest);
    assert(line == "     → "@ + padded_right(m.dest, 28) + " "@ + padded_left(
        decimal(moves_to(p.moves, m.dest)),
        7,
    ) + note);
    lemma_in_sections(p, copy, verbose, classes, line);
}

/// How many moves go to a repository.
pub open spec fn moves_to(moves: Seq<PlannedMoveView>, dest: Seq<char>) -> nat
    decreases moves.len(),
{
    if moves.len() == 0 {
        0
    } else {
        moves_to(moves.drop_last(), dest) + if moves.last().dest == dest {
            1nat
        } else {
            0
        }
    }
}

/// The moves to a repository are counted by the occurrences of its key.
proof fn lemma_moves_to(moves: Seq<PlannedMoveView>, dest: Seq<char>)
    ensures
        occurrences(dest_list(moves), key1(dest)) == moves_to(moves, dest),
        moves_to(moves, dest) <= moves.len(),
    decreases moves.len(),
{
    reveal(Seq::filter);
    if moves.len() > 0 {
        let rest = moves.drop_last();
        lemma_moves_to(rest, dest);
        let last = key1(moves.last().dest);
        assert(dest_list(moves) =~= dest_list(rest).push(last));
        dest_list(rest).lemma_filter_push(last, is_key(key1(dest)));
        if last == key1(dest) {
            assert(last[0] == key1(dest)[0]);
        }
    }
}

/// A line of the part for review is a line of the report.
proof fn lemma_in_review(
    p: ResolvedView,
    copy: bool,
    verbose: bool,
    classes: Seq<(Seq<Seq<char>>, Seq<Seq<char>>)>,
    line: Seq<char>,
)
    requires
        absent_section(p).contains(line) || purge_section(p).contains(line) || triage_section(
            p,
        ).contains(line) || unmatched_section(p).contains(line) || kept_section(p).contains(line),
    ensures
        plan_lines(p, copy, verbose, classes).contains(line),
{
    let head = seq!["\n▸ Review only — no --apply group touches these:"@];
    let a = absent_section(p);
    let b = purge_section(p);
    let c = triage_section(p);
    let d = unmatched_section(p);
    let e = kept_section(p);
    assert(review_lines(p) == head + a + b + c + d + e);
    lemma_sum_contains(head, a, line);
    lemma_sum_contains(head + a, b, line);
    lemma_sum_contains(head + a + b, c, line);
    lemma_sum_contains(head + a + b + c, d, line);
    lemma_sum_contains(head + a + b + c + d, e, line);
    let title = seq!["================ Reorg plan ================"@];
    lemma_sum_contains(
        title + summary_lines(p, copy) + group_sections(p, copy, verbose, classes),
        review_lines(p),
        line,
    );
}

/// What no group touches is shown for review: tags without a rule under their image,
/// images that the upstream lacks under their repository, unclassified images with a
/// hint, repositories to purge and tags that were kept by their number.
pub proof fn law_what_no_group_touches_is_shown(
    p: ResolvedView,
    copy: bool,
    verbose: bool,
    classes: Seq<(Seq<Seq<char>>, Seq<Seq<char>>)>,
    t: TagRefView,
    item: TriageItemView,
)
    ensures
        ({
            let lines = plan_lines(p, copy, verbose, classes);
            &&& p.leaves.contains(t) ==> tag_is_shown(lines, "     "@, t.image, t.tag)
            &&& p.insight_absent.contains(t) ==> lines.contains("     in "@ + t.source_repo + ":"@)
                && tag_is_shown(
                lines,
                "        "@,
                t.image,
                t.tag + " (created "@ + created_of(p, t) + ")"@,
            )
            &&& p.needs_classification.contains(item) ==> image_is_shown(
                lines,
                item.tag.image,
                item.tag.tag,
            )
            &&& p.kept.len() > 0 ==> lines.contains(
                "\n  Kept ("@ + decimal(p.kept.len())
                    + ")  → already present in the check repo, left in place (informational)"@,
            )
        }),
{
    let lines = plan_lines(p, copy, verbose, classes);
    if p.leaves.contains(t) {
        let a = image_lines(p.leaves, "     "@);
        let i = lemma_image_lines(p.leaves, "     "@, t);
        assert(unmatched_section(p)[i + 1] == a[i]);
        lemma_in_review(p, copy, verbose, classes, a[i]);
        lemma_shown(lines, "     "@, t, a[i]);
    }
    if p.insight_absent.contains(t) {
        lemma_candidate_is_shown(p, copy, verbose, classes, t);
    }
    if p.needs_classification.contains(item) {
        let items = triage_items(p.needs_classification);
        let k = choose|k: int|
            0 <= k < p.needs_classification.len() && p.needs_classification[k] == item;
        assert(items[k] == (key1(item.tag.image), item));
        assert(items.contains((key1(item.tag.image), item)));
        let g = lemma_group_of(items, key1(item.tag.image), item);
        let gs = group_by(items);
        let line = triage_line()(gs[g]);
        let ts = gs[g].1.map_values(triage_tag());
        let j = choose|j: int| 0 <= j < gs[g].1.len() && gs[g].1[j] == item;
        assert(ts[j] == item.tag.tag);
        assert(ts.contains(item.tag.tag));
        lemma_sorted_contains(ts, item.tag.tag);
        assert(triage_section(p)[g + 1] == line);
        lemma_in_review(p, copy, verbose, classes, line);
        let i = choose|i: int| 0 <= i < lines.len() && lines[i] == line;
        assert(gs[g].0[0] == item.tag.image);
        assert(is_triage_line(lines[i], item.tag.image, item.tag.tag)) by {
            let first = gs[g].1[0];
            let hint = hint_text(first.upstream_present, first.upstream_same_digest);
            assert(lines[i] == "     "@ + item.tag.image + " — "@ + hint + " — "@ + joined(
                sorted_texts(ts),
                ", "@,
            ));
        }
    }
    if p.kept.len() > 0 {
        let line = "\n  Kept ("@ + decimal(p.kept.len())
            + ")  → already present in the check repo, left in place (informational)"@;
        assert(kept_section(p)[0] == line);
        lemma_in_review(p, copy, verbose, classes, line);
    }
}

/// The hint for an image, by what the upstream serves of it.
pub open spec fn hint_text(upstream: bool, same: bool) -> Seq<char> {
    if upstream && same {
        "present upstream, same digest → likely an INSIGHT image"@
    } else if upstream {
        "present upstream, different digest → likely INSIGHT (review digest)"@
    } else {
        "absent upstream → likely an AUX image"@
    }
}

/// A line shows a tag of an unclassified image behind the hint.
pub open spec fn is_triage_line(line: Seq<char>, image: Seq<char>, tag: Seq<char>) -> bool {
    exists|upstream: bool, same: bool, ts: Seq<Seq<char>>|
        line == "     "@ + image + " — "@ + #[trigger] hint_text(upstream, same) + " — "@
            + #[trigger] joined(ts, ", "@) && ts.contains(tag)
}

/// Some line shows a tag of an unclassified image.
pub open spec fn image_is_shown(lines: Seq<Seq<char>>, image: Seq<char>, tag: Seq<char>) -> bool {
    exists|i: int| 0 <= i < lines.len() && is_triage_line(#[trigger] lines[i], image, tag)
}

/// A tag that the upstream lacks is shown with its date.
proof fn lemma_candidate_is_shown(
    p: ResolvedView,
    copy: bool,
    verbose: bool,
    classes: Seq<(Seq<Seq<char>>, Seq<Seq<char>>)>,
    t: TagRefView,
)
    requires
        p.insight_absent.contains(t),
    ensures
        plan_lines(p, copy, verbose, classes).contains("     in "@ + t.source_repo + ":"@),
        tag_is_shown(
            plan_lines(p, copy, verbose, classes),
            "        "@,
            t.image,
            t.tag + " (created "@ + created_of(p, t) + ")"@,
        ),
{
    let lines = plan_lines(p, copy, verbose, classes);
    let items = repo_items(p.insight_absent);
    let k = choose|k: int| 0 <= k < p.insight_absent.len() && p.insight_absent[k] == t;
    assert(items[k] == (key1(t.source_repo), t));
    assert(items.contains((key1(t.source_repo), t)));
    let g = lemma_group_of(items, key1(t.source_repo), t);
    let gs = group_by(items);
    let own = candidate_lines(p)(gs[g]);
    let dated = dated_items(p, gs[g].1);
    let text = t.tag + " (created "@ + created_of(p, t) + ")"@;
    let j = choose|j: int| 0 <= j < gs[g].1.len() && gs[g].1[j] == t;
    assert(dated[j] == (key1(t.image), text));
    assert(dated.contains((key1(t.image), text)));
    let h = lemma_group_of(dated, key1(t.image), text);
    let a = own[0];
    let b = own[h + 1];
    assert(b == image_line("        "@)(group_by(dated)[h]));
    assert(gs[g].0[0] == t.source_repo);
    assert(key1(t.image)[0] == t.image);
    let body = spread(gs, candidate_lines(p));
    let head = absent_section(p).take(1);
    assert(absent_section(p) =~= head + body);
    assert(own.contains(a) && own.contains(b));
    assert(candidate_lines(p)(gs[g]).contains(a));
    assert(candidate_lines(p)(gs[g]).contains(b));
    lemma_spread_contains(gs, candidate_lines(p), a);
    lemma_spread_contains(gs, candidate_lines(p), b);
    lemma_sum_contains(head, body, a);
    lemma_sum_contains(head, body, b);
    lemma_in_review(p, copy, verbose, classes, a);
    lemma_in_review(p, copy, verbose, classes, b);
    let ts = group_by(dated)[h].1;
    assert(b == "        "@ + t.image + ": "@ + joined(ts, ", "@));
    let i = choose|i: int| 0 <= i < lines.len() && lines[i] == b;
    assert(shows_tag(lines[i], "        "@, t.image, text));
}

/// There is nothing for review exactly where no list that is only reviewed has an item.
pub proof fn law_review_is_empty_without_items(p: ResolvedView)
    ensures
        review_lines(p).len() == 0 <==> p.insight_absent.len() == 0 && p.purges.len() == 0
            && p.needs_classification.len() == 0 && p.leaves.len() == 0 && p.kept.len() == 0,
{
}

/// The details list every move, and are there exactly where something moves.
pub proof fn law_details_list_every_move(p: ResolvedView, m: PlannedMoveView)
    ensures
        verbose_lines(p).len() == 0 <==> p.moves.len() == 0,
        p.moves.contains(m) ==> verbose_lines(p).contains(
            "     "@ + m.source_repo + "/"@ + m.image + ":"@ + m.tag,
        ),
{
    if p.moves.contains(m) {
        let items = dest_items(p.moves);
        let k = choose|k: int| 0 <= k < p.moves.len() && p.moves[k] == m;
        assert(items[k] == (key1(m.dest), m));
        assert(items.contains((key1(m.dest), m)));
        let g = lemma_group_of(items, key1(m.dest), m);
        let gs = group_by(items);
        let line = move_line()(m);
        let j = choose|j: int| 0 <= j < gs[g].1.len() && gs[g].1[j] == m;
        let ls = gs[g].1.map_values(move_line());
        assert(ls[j] == line);
        assert(ls.contains(line));
        lemma_sorted_contains(ls, line);
        let own = dest_moves()(gs[g]);
        let head = own.take(1);
        assert(own =~= head + sorted_texts(ls));
        lemma_sum_contains(head, sorted_texts(ls), line);
        assert(dest_moves()(gs[g]).contains(line));
        lemma_spread_contains(gs, dest_moves(), line);
        let title = verbose_lines(p).take(1);
        assert(verbose_lines(p) =~= title + spread(gs, dest_moves()));
        lemma_sum_contains(title, spread(gs, dest_moves()), line);
    }
}

/// A moved tag may expire exactly where its last access is known and more whole days
/// ago than the window.
pub proof fn law_stale_tag_was_not_pulled(
    atimes: Seq<(Seq<Seq<char>>, Seq<char>)>,
    now: Timestamp,
    window: u32,
    m: PlannedMoveView,
    at: Seq<char>,
    t: (i64, u32),
)
    requires
        instant_of(at) == Some(t),
    ensures
        lookup(atimes, seq![m.image, m.tag]) == Some(at) ==> (is_stale(atimes, now, window)(m)
            <==> whole_days(Timestamp { secs: t.0, nanos: t.1 }, now) > window),
        lookup(atimes, seq![m.image, m.tag]) is None ==> !is_stale(atimes, now, window)(m),
{
    assert(key2(m.image, m.tag) =~= seq![m.image, m.tag]);
}

/// A cleanup policy is none.
pub open spec fn has_no_policy(
    cleanup: Seq<(Seq<Seq<char>>, (Option<u32>, Option<u32>))>,
    dest: Seq<char>,
) -> bool {
    match lookup(cleanup, seq![dest]) {
        Some(p) => p.0 is None && p.1 is None,
        None => true,
    }
}

/// Every destination is told of with its policy: moves to one without a policy are
/// permanent, others are warned of.
pub proof fn law_retention_of_every_destination_is_told(
    p: ResolvedView,
    cleanup: Seq<(Seq<Seq<char>>, (Option<u32>, Option<u32>))>,
    atimes: Seq<(Seq<Seq<char>>, Seq<char>)>,
    now: Timestamp,
    m: PlannedMoveView,
)
    requires
        p.moves.contains(m),
    ensures
        has_no_policy(cleanup, m.dest) ==> begins_a_line(
            retention_lines(p, cleanup, atimes, now),
            "  "@ + m.dest + ": no cleanup policy — "@,
        ),
        !has_no_policy(cleanup, m.dest) ==> begins_a_line(
            retention_lines(p, cleanup, atimes, now),
            "  ⚠ "@ + m.dest + ": "@,
        ),
{
    let items = dest_items(p.moves);
    let k = choose|k: int| 0 <= k < p.moves.len() && p.moves[k] == m;
    assert(items[k] == (key1(m.dest), m));
    assert(items.contains((key1(m.dest), m)));
    let g = lemma_group_of(items, key1(m.dest), m);
    let gs = group_by(items);
    let line = retention_line(cleanup, atimes, now)(gs[g]);
    let lines = retention_lines(p, cleanup, atimes, now);
    assert(lines[g + 1] == line);
    assert(key1(m.dest) =~= seq![m.dest]);
    assert(gs[g].0[0] == m.dest);
    if has_no_policy(cleanup, m.dest) {
        let start = "  "@ + m.dest + ": no cleanup policy — "@;
        assert(line.take(start.len() as int) =~= start);
    } else {
        let start = "  ⚠ "@ + m.dest + ": "@;
        assert(line.take(start.len() as int) =~= start);
    }
    assert(has_prefix(
        lines[g + 1],
        if has_no_policy(cleanup, m.dest) {
            "  "@ + m.dest + ": no cleanup policy — "@
        } else {
            "  ⚠ "@ + m.dest + ": "@
        },
    ));
}

/// Some line begins with a text.
pub open spec fn begins_a_line(lines: Seq<Seq<char>>, start: Seq<char>) -> bool {
    exists|i: int| 0 <= i < lines.len() && has_prefix(#[trigger] lines[i], start)
}

/// How many times a text stands in a list.
pub open spec fn times(texts: Seq<Seq<char>>, t: Seq<char>) -> nat
    decreases texts.len(),
{
    if texts.len() == 0 {
        0
    } else {
        times(texts.drop_last(), t) + if texts.last() == t {
            1nat
        } else {
            0
        }
    }
}

/// The tally of a list of texts has a row for each text, with how often it stands
/// there.
proof fn lemma_tally_row(texts: Seq<Seq<char>>, keys: Seq<Seq<Seq<char>>>, t: Seq<char>) -> (i: int)
    requires
        keys == texts.map_values(|x: Seq<char>| key1(x)),
        texts.contains(t),
        texts.len() <= usize::MAX,
    ensures
        0 <= i < tally_of(keys).len(),
        tally_of(keys)[i] == (key1(t), times(texts, t) as usize),
        times(texts, t) <= usize::MAX,
{
    let k = choose|k: int| 0 <= k < texts.len() && texts[k] == t;
    assert(keys[k] == key1(t));
    assert(keys.contains(key1(t)));
    lemma_sorted_keys(keys);
    let sorted = sorted_keys(keys);
    assert(sorted.contains(key1(t)));
    let i = choose|i: int| 0 <= i < sorted.len() && sorted[i] == key1(t);
    lemma_times(texts, keys, t);
    i
}

/// A text stands in a list as often as its key among the keys.
proof fn lemma_times(texts: Seq<Seq<char>>, keys: Seq<Seq<Seq<char>>>, t: Seq<char>)
    requires
        keys == texts.map_values(|x: Seq<char>| key1(x)),
    ensures
        occurrences(keys, key1(t)) == times(texts, t),
        times(texts, t) <= texts.len(),
    decreases texts.len(),
{
    reveal(Seq::filter);
    if texts.len() > 0 {
        let rest = texts.drop_last();
        let before = keys.drop_last();
        assert(before =~= rest.map_values(|x: Seq<char>| key1(x)));
        lemma_times(rest, before, t);
        let last = key1(texts.last());
        assert(keys =~= before.push(last));
        before.lemma_filter_push(last, is_key(key1(t)));
        if last == key1(t) {
            assert(last[0] == key1(t)[0]);
        }
    }
}

/// A line begins with a text and goes on with a list of rows that has a row.
pub open spec fn lists_row(line: Seq<char>, start: Seq<char>, sep: Seq<char>, row: Seq<char>) -> bool {
    exists|rows: Seq<Seq<char>>|
        line == start + #[trigger] joined(rows, sep) && rows.contains(row)
}

/// Some line lists a row.
pub open spec fn row_is_listed(
    lines: Seq<Seq<char>>,
    start: Seq<char>,
    sep: Seq<char>,
    row: Seq<char>,
) -> bool {
    exists|i: int| 0 <= i < lines.len() && lists_row(#[trigger] lines[i], start, sep, row)
}

/// Where something moves, the repositories that it comes from are listed with the
/// number of their moves.
pub proof fn law_sources_of_moves_are_counted(
    p: ResolvedView,
    copy: bool,
    verbose: bool,
    classes: Seq<(Seq<Seq<char>>, Seq<Seq<char>>)>,
    m: PlannedMoveView,
)
    requires
        p.moves.contains(m),
        p.moves.len() <= usize::MAX,
    ensures
        row_is_listed(
            plan_lines(p, copy, verbose, classes),
            "     from: "@,
            " · "@,
            m.source_repo + " "@ + decimal(
                times(p.moves.map_values(|x: PlannedMoveView| x.source_repo), m.source_repo),
            ),
        ),
{
    let texts = p.moves.map_values(|x: PlannedMoveView| x.source_repo);
    let keys = source_list(p.moves);
    assert(keys =~= texts.map_values(|x: Seq<char>| key1(x)));
    let k = choose|k: int| 0 <= k < p.moves.len() && p.moves[k] == m;
    assert(texts[k] == m.source_repo);
    let i = lemma_tally_row(texts, keys, m.source_repo);
    let rows = tally_of(keys).map_values(counted());
    let row = m.source_repo + " "@ + decimal(times(texts, m.source_repo));
    assert(key1(m.source_repo)[0] == m.source_repo);
    assert(rows[i] == row);
    assert(rows.contains(row));
    let section = move_section(p, copy, verbose, classes);
    let line = "     from: "@ + joined(rows, " · "@);
    let n = tally_of(dest_list(p.moves)).len() as int;
    assert(section[1 + n] == line);
    lemma_in_sections(p, copy, verbose, classes, line);
    let lines = plan_lines(p, copy, verbose, classes);
    let j = choose|j: int| 0 <= j < lines.len() && lines[j] == line;
    assert(lists_row(lines[j], "     from: "@, " · "@, row));
}

/// The repositories to purge are listed with the number of their leftovers.
pub proof fn law_purged_repositories_are_counted(
    p: ResolvedView,
    copy: bool,
    verbose: bool,
    classes: Seq<(Seq<Seq<char>>, Seq<Seq<char>>)>,
    t: TagRefView,
)
    requires
        p.purges.contains(t),
        p.purges.len() <= usize::MAX,
    ensures
        row_is_listed(
            plan_lines(p, copy, verbose, classes),
            "\n  Purge-repo remainder ("@ + decimal(p.purges.len())
                + ")  → dead cache; first-party already re-homed, delete the repo wholesale: "@,
            ", "@,
            t.source_repo + " ("@ + decimal(
                times(p.purges.map_values(|x: TagRefView| x.source_repo), t.source_repo),
            ) + ")"@,
        ),
{
    let texts = p.purges.map_values(|x: TagRefView| x.source_repo);
    let keys = repo_keys(p.purges);
    assert(keys =~= texts.map_values(|x: Seq<char>| key1(x)));
    let k = choose|k: int| 0 <= k < p.purges.len() && p.purges[k] == t;
    assert(texts[k] == t.source_repo);
    let i = lemma_tally_row(texts, keys, t.source_repo);
    let rows = tally_of(keys).map_values(bracketed());
    let row = t.source_repo + " ("@ + decimal(times(texts, t.source_repo)) + ")"@;
    assert(key1(t.source_repo)[0] == t.source_repo);
    assert(rows[i] == row);
    assert(rows.contains(row));
    let start = "\n  Purge-repo remainder ("@ + decimal(p.purges.len())
        + ")  → dead cache; first-party already re-homed, delete the repo wholesale: "@;
    let line = start + joined(rows, ", "@);
    assert(purge_section(p)[0] == line);
    lemma_in_review(p, copy, verbose, classes, line);
    let lines = plan_lines(p, copy, verbose, classes);
    let j = choose|j: int| 0 <= j < lines.len() && lines[j] == line;
    assert(lists_row(lines[j], start, ", "@, row));
}

/// The classes of a destination stand behind its number; a destination without
/// classes has no note.
pub proof fn law_classes_of_a_destination_are_noted(
    classes: Seq<(Seq<Seq<char>>, Seq<Seq<char>>)>,
    dest: Seq<char>,
)
    ensures
        lookup(classes, seq![dest]) is None ==> class_note(classes, seq![dest])
            == Seq::<char>::empty(),
        lookup(classes, seq![dest]) matches Some(cs) ==> (joined(cs, ", "@).len() > 0 ==> class_note(
            classes,
            seq![dest],
        ) == "   ("@ + joined(cs, ", "@) + ")"@),
{
}

/// A policy is told by its limits: the age since creation, then the days since the
/// last pull.
pub proof fn law_policy_is_told_by_its_limits(a: u32, u: u32)
    ensures
        ({
            let age = "max_age="@ + decimal(a as nat) + "d (creation)"@;
            let pull = "max_unaccessed="@ + decimal(u as nat) + "d (last pull)"@;
            &&& policy_parts((Some(a), Some(u))) == seq![age, pull]
            &&& policy_parts((Some(a), None)) == seq![age]
            &&& policy_parts((None, Some(u))) == seq![pull]
            &&& policy_parts((None, None)).len() == 0
        }),
{
    let age = "max_age="@ + decimal(a as nat) + "d (creation)"@;
    let pull = "max_unaccessed="@ + decimal(u as nat) + "d (last pull)"@;
    assert(policy_parts((Some(a), Some(u))) =~= seq![age, pull]);
    assert(policy_parts((Some(a), None)) =~= seq![age]);
    assert(policy_parts((None, Some(u))) =~= seq![pull]);
}

/// Of a destination with a limit on the days since the last pull, the number of the
/// moves and of those that were not pulled within it are told.
pub proof fn law_moves_that_may_expire_are_counted(
    cleanup: Seq<(Seq<Seq<char>>, (Option<u32>, Option<u32>))>,
    atimes: Seq<(Seq<Seq<char>>, Seq<char>)>,
    now: Timestamp,
    dest: Seq<char>,
    moves: Seq<PlannedMoveView>,
    age: Option<u32>,
    u: u32,
)
    requires
        lookup(cleanup, seq![dest]) == Some((age, Some(u))),
    ensures
        has_infix(
            retention_line(cleanup, atimes, now)((seq![dest], moves)),
            " — "@ + decimal(moves.len()) + " move(s); "@ + decimal(
                moves.filter(|m: PlannedMoveView| is_stale(atimes, now, u)(m)).len(),
            ) + " last pulled older than "@ + decimal(u as nat) + "d"@,
        ),
{
    let line = retention_line(cleanup, atimes, now)((seq![dest], moves));
    assert(is_stale(atimes, now, u) =~= |m: PlannedMoveView| is_stale(atimes, now, u)(m));
    let a = "  ⚠ "@ + dest + ": "@ + joined(
        policy_parts((age, Some(u))),
        ", "@,
    );
    let b = " — "@ + decimal(moves.len()) + " move(s); "@ + decimal(
        moves.filter(is_stale(atimes, now, u)).len(),
    ) + " last pulled older than "@ + decimal(u as nat) + "d"@;
    let c = " → likely to expire after the move"@;
    reveal_strlit("d");
    reveal_strlit(" \u{2192} likely to expire after the move");
    reveal_strlit("d \u{2192} likely to expire after the move");
    assert("d"@ + c =~= "d → likely to expire after the move"@);
    assert(line =~= a + b + c);
    assert(between(line, a, b, c));
    law_infix_stands_between(line, b);
}

/// The details give each destination with the number of its moves.
pub proof fn law_details_count_the_moves(p: ResolvedView, m: PlannedMoveView)
    requires
        p.moves.contains(m),
    ensures
        verbose_lines(p).contains(
            "\n→ "@ + m.dest + "  ("@ + decimal(moves_to(p.moves, m.dest)) + " tag(s)):"@,
        ),
{
    let items = dest_items(p.moves);
    let k = choose|k: int| 0 <= k < p.moves.len() && p.moves[k] == m;
    assert(items[k] == (key1(m.dest), m));
    assert(items.contains((key1(m.dest), m)));
    let g = lemma_group_of(items, key1(m.dest), m);
    let gs = group_by(items);
    lemma_values_count(items, key1(m.dest));
    assert(keys_of(items) =~= dest_list(p.moves));
    lemma_moves_to(p.moves, m.dest);
    let own = dest_moves()(gs[g]);
    assert(key1(m.dest)[0] == m.dest);
    let line = own[0];
    assert(line == "\n→ "@ + m.dest + "  ("@ + decimal(moves_to(p.moves, m.dest))
        + " tag(s)):"@);
    assert(dest_moves()(gs[g]).contains(line));
    lemma_spread_contains(gs, dest_moves(), line);
    let title = verbose_lines(p).take(1);
    assert(verbose_lines(p) =~= title + spread(gs, dest_moves()));
    lemma_sum_contains(title, spread(gs, dest_moves()), line);
}

/// The summary tells what a copy does instead, and how much stays for review.
pub proof fn law_summary_tells_what_stays(p: ResolvedView, copy: bool)
    ensures
        begins_a_line(
            summary_lines(p, copy),
            "\nNOT touched by any group (review only): "@ + decimal(review_total(p)) + " — "@,
        ),
        summary_lines(p, copy).contains(
            "    (--copy makes 'move' a non-destructive copy and skips every delete group)"@,
        ) || !copy,
{
    let lines = summary_lines(p, copy);
    let n = lines.len() as int;
    let start = "\nNOT touched by any group (review only): "@ + decimal(review_total(p)) + " — "@;
    assert(lines[n - 2] == untouched_line(p));
    assert(untouched_line(p).take(start.len() as int) =~= start);
    assert(has_prefix(lines[n - 2], start));
    if copy {
        assert(lines[n - 3]
            == "    (--copy makes 'move' a non-destructive copy and skips every delete group)"@);
    }
}

} // verus!
