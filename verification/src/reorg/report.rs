//! The printed plan: a summary, one section per action group, and what is left
//! for review. Every function gives the lines to print.
use crate::ordered::{
    entry_views, group, group_by, key1, list_keys, lookup, sort_list, sorted_groups, sorted_texts,
    tally, tally_of, OrderedMap,
};
use crate::reorg::collisions::SupersededItemView;
use crate::reorg::config::{
    delete_group, group_of, GROUP_MISMATCH, GROUP_MOVE, GROUP_NON_RELEASED, GROUP_REDUNDANT,
    GROUP_RETIRED, GROUP_SUPERSEDED,
};
use crate::reorg::evidence::{
    can_shorten, date_only, date_part, short, short_digest, shortenable, MismatchInfo,
    MismatchInfoView,
};
use crate::reorg::plan::{DeleteItemView, PlannedMove, PlannedMoveView, TagRef, TagRefView};
use crate::reorg::resolve::{created_of, ResolvedPlan, ResolvedView};
use crate::reorg::upstream::{image_items, tags_by_image};
use crate::seqs::{
    lemma_filter_map_step, lemma_filter_step, lemma_map_step, lemma_spread_step, lemma_take_all,
    lemma_take_push, push_all, push_item, spread,
};
use crate::text::{
    count_text, decimal, join, joined, pad_left, pad_right, padded_left, padded_right, same_text,
    wide_text,
};
use vstd::prelude::*;

verus! {

pub const DESC_MOVE: &'static str = "re-home tags to their correct repository";

pub const DESC_REDUNDANT: &'static str = "delete source copies identical to the insight copy";

pub const DESC_SUPERSEDED: &'static str = "delete older source copies (a newer copy is kept)";

pub const DESC_MISMATCH: &'static str =
    "delete source copies that differ from insight (insight authoritative)";

pub const DESC_RETIRED: &'static str = "delete tags under retired namespaces";

pub const DESC_NON_RELEASED: &'static str =
    "delete non-x.y.z tags the upstream doesn't serve from the LOCAL insight cache";

/// Tells the deletions of a group.
pub open spec fn in_group(g: Seq<char>) -> spec_fn(DeleteItemView) -> bool {
    |d: DeleteItemView| group_of(d) == g
}

/// Tells the mismatches that may be deleted.
pub open spec fn may_delete() -> spec_fn(MismatchInfoView) -> bool {
    |m: MismatchInfoView| m.deletable()
}

/// Tells the mismatches that are kept for review.
pub open spec fn must_review() -> spec_fn(MismatchInfoView) -> bool {
    |m: MismatchInfoView| !m.deletable()
}

/// How many tags each group would change, with its description.
pub open spec fn counts(p: ResolvedView) -> Seq<(Seq<char>, usize, Seq<char>)> {
    seq![
        (GROUP_MOVE@, p.moves.len() as usize, DESC_MOVE@),
        (
            GROUP_REDUNDANT@,
            p.deletes.filter(in_group(GROUP_REDUNDANT@)).len() as usize,
            DESC_REDUNDANT@,
        ),
        (
            GROUP_SUPERSEDED@,
            p.deletes.filter(in_group(GROUP_SUPERSEDED@)).len() as usize,
            DESC_SUPERSEDED@,
        ),
        (GROUP_MISMATCH@, p.mismatched.filter(may_delete()).len() as usize, DESC_MISMATCH@),
        (GROUP_RETIRED@, p.prefix_deletes.len() as usize, DESC_RETIRED@),
        (GROUP_NON_RELEASED@, p.non_released.len() as usize, DESC_NON_RELEASED@),
    ]
}

/// The number of deletions of a group.
fn count_in_group(p: &ResolvedPlan, g: &str) -> (r: usize)
    ensures
        r == p.deep_view().deletes.filter(in_group(g@)).len(),
{
    let ghost all = p.deletes.deep_view();
    let ghost pred = in_group(g@);
    let mut n: usize = 0;
    let mut i: usize = 0;
    proof {
        reveal(Seq::filter);
    }
    assert(all.take(0).filter(pred).len() == 0);
    while i < p.deletes.len()
        invariant
            all == p.deletes.deep_view(),
            pred == in_group(g@),
            i <= p.deletes@.len(),
            n <= i,
            n == all.take(i as int).filter(pred).len(),
        decreases p.deletes@.len() - i,
    {
        proof {
            lemma_filter_step(all, pred, i as int);
            assert(all[i as int] == p.deletes@[i as int].deep_view());
        }
        if same_text(delete_group(&p.deletes[i]), g) {
            n = n + 1;
        }
        i = i + 1;
    }
    proof {
        lemma_take_all(all);
    }
    n
}

/// The number of mismatches that may be deleted, and of those that may not.
fn count_mismatches(p: &ResolvedPlan) -> (r: (usize, usize))
    ensures
        r.0 == p.deep_view().mismatched.filter(may_delete()).len(),
        r.1 == p.deep_view().mismatched.filter(must_review()).len(),
{
    let ghost all = p.mismatched.deep_view();
    let mut n: usize = 0;
    let mut m: usize = 0;
    let mut i: usize = 0;
    proof {
        reveal(Seq::filter);
    }
    assert(all.take(0).filter(may_delete()).len() == 0);
    assert(all.take(0).filter(must_review()).len() == 0);
    while i < p.mismatched.len()
        invariant
            all == p.mismatched.deep_view(),
            i <= p.mismatched@.len(),
            n + m == i,
            n == all.take(i as int).filter(may_delete()).len(),
            m == all.take(i as int).filter(must_review()).len(),
        decreases p.mismatched@.len() - i,
    {
        proof {
            lemma_filter_step(all, may_delete(), i as int);
            lemma_filter_step(all, must_review(), i as int);
            assert(all[i as int] == p.mismatched@[i as int].deep_view());
        }
        if p.mismatched[i].recommends_delete() {
            n = n + 1;
        } else {
            m = m + 1;
        }
        i = i + 1;
    }
    proof {
        lemma_take_all(all);
    }
    (n, m)
}

/// Per-group counts of what would change.
pub fn group_counts(p: &ResolvedPlan) -> (r: [(&'static str, usize, &'static str); 6])
    ensures
        r.deep_view() == counts(p.deep_view()),
{
    let redundant: usize = count_in_group(p, GROUP_REDUNDANT);
    let superseded: usize = count_in_group(p, GROUP_SUPERSEDED);
    let (mismatch, _) = count_mismatches(p);
    let r = [
        (GROUP_MOVE, p.moves.len(), DESC_MOVE),
        (GROUP_REDUNDANT, redundant, DESC_REDUNDANT),
        (GROUP_SUPERSEDED, superseded, DESC_SUPERSEDED),
        (GROUP_MISMATCH, mismatch, DESC_MISMATCH),
        (GROUP_RETIRED, p.prefix_deletes.len(), DESC_RETIRED),
        (GROUP_NON_RELEASED, p.non_released.len(), DESC_NON_RELEASED),
    ];
    assert(r.deep_view() =~= counts(p.deep_view()));
    r
}

/// The number of tags left for review.
pub open spec fn review_total(p: ResolvedView) -> nat {
    p.mismatched.filter(must_review()).len() + p.insight_absent.len() + p.superseded.len()
        + p.copy_upstream.len() + p.needs_classification.len() + p.leaves.len() + p.kept.len()
}

/// Count of tags left for the operator to review, touched by no group. The
/// result is wide enough for lists of any length.
pub fn for_you_total(p: &ResolvedPlan) -> (r: u128)
    ensures
        r == review_total(p.deep_view()),
{
    let (_, mismatch_review) = count_mismatches(p);
    mismatch_review as u128 + p.insight_absent.len() as u128 + p.superseded.len() as u128
        + p.copy_upstream.len() as u128 + p.needs_classification.len() as u128
        + p.leaves.len() as u128 + p.kept.len() as u128
}

/// The summary line of one group.
pub open spec fn count_line() -> spec_fn((Seq<char>, usize, Seq<char>)) -> Seq<char> {
    |c: (Seq<char>, usize, Seq<char>)|
        "    "@ + padded_right("--apply "@ + c.0, 22) + " "@ + padded_left(
            decimal(c.1 as nat),
            6,
        ) + " tag(s)   "@ + c.2
}

/// A line where a note stands, none where there is none.
pub open spec fn note_line(before: Seq<char>, note: Option<Seq<char>>, after: Seq<char>) -> Seq<
    Seq<char>,
> {
    match note {
        Some(n) => seq![before + n + after],
        None => Seq::empty(),
    }
}

/// A line where a condition holds.
pub open spec fn line_if(cond: bool, line: Seq<char>) -> Seq<Seq<char>> {
    if cond {
        seq![line]
    } else {
        Seq::empty()
    }
}

/// What no group touches.
pub open spec fn untouched_line(p: ResolvedView) -> Seq<char> {
    "\nNOT touched by any group (review only): "@ + decimal(review_total(p)) + " — "@ + decimal(
        p.mismatched.filter(must_review()).len(),
    ) + " mismatch(source newer) · "@ + decimal(p.superseded.len()) + " superseded(source newer) · "@
        + decimal(p.copy_upstream.len()) + " copy-upstream · "@ + decimal(p.insight_absent.len())
        + " restore-candidate · "@ + decimal(p.needs_classification.len()) + " unclassified · "@
        + decimal(p.leaves.len()) + " unmatched"@
}

/// The one-screen summary.
pub open spec fn summary_lines(p: ResolvedView, copy: bool) -> Seq<Seq<char>> {
    seq![
        "Nothing is changed until you re-run with --apply. Each line below is one"@,
        "independent group — pass the ones you want (comma-separated), or 'all':"@,
        ""@,
    ] + counts(p).map_values(count_line()) + note_line(
        "    (non-released count unavailable — "@,
        p.non_released_note,
        ")"@,
    ) + seq![""@, "    e.g.   --apply move,redundant        --apply all"@] + line_if(
        copy,
        "    (--copy makes 'move' a non-destructive copy and skips every delete group)"@,
    ) + seq![
        untouched_line(p),
        "Already in the right place (no change needed): "@ + decimal(p.already_placed),
    ]
}

/// Append a line of text.
pub(crate) fn say(out: &mut Vec<String>, line: &str)
    ensures
        final(out).deep_view() == old(out).deep_view().push(line@),
{
    push_item(out, line.to_string());
}

/// A number appended to a text.
pub(crate) fn append_count(s: &mut String, n: usize)
    ensures
        final(s)@ == old(s)@ + decimal(n as nat),
{
    let t = count_text(n);
    s.append(t.as_str());
}

/// What no group touches.
fn say_untouched(p: &ResolvedPlan) -> (s: String)
    ensures
        s@ == untouched_line(p.deep_view()),
{
    let (_, review) = count_mismatches(p);
    let total = wide_text(for_you_total(p));
    let mut s = "\nNOT touched by any group (review only): ".to_string();
    s.append(total.as_str());
    s.append(" — ");
    append_count(&mut s, review);
    s.append(" mismatch(source newer) · ");
    append_count(&mut s, p.superseded.len());
    s.append(" superseded(source newer) · ");
    append_count(&mut s, p.copy_upstream.len());
    s.append(" copy-upstream · ");
    append_count(&mut s, p.insight_absent.len());
    s.append(" restore-candidate · ");
    append_count(&mut s, p.needs_classification.len());
    s.append(" unclassified · ");
    append_count(&mut s, p.leaves.len());
    s.append(" unmatched");
    s
}

/// The action groups, each independently selectable, and what is left for
/// review.
pub fn print_summary(p: &ResolvedPlan, copy: bool) -> (out: Vec<String>)
    ensures
        out.deep_view() == summary_lines(p.deep_view(), copy),
{
    let mut out: Vec<String> = Vec::new();
    say(&mut out, "Nothing is changed until you re-run with --apply. Each line below is one");
    say(&mut out, "independent group — pass the ones you want (comma-separated), or 'all':");
    say(&mut out, "");
    let ghost head = out.deep_view();
    let rows = group_counts(p);
    let ghost cs = counts(p.deep_view());
    let mut i: usize = 0;
    assert(out.deep_view() =~= head + cs.take(0).map_values(count_line()));
    while i < 6
        invariant
            i <= 6,
            cs.len() == 6,
            rows.deep_view() == cs,
            out.deep_view() == head + cs.take(i as int).map_values(count_line()),
        decreases 6 - i,
    {
        let (name, n, desc) = rows[i];
        proof {
            assert(cs[i as int] == (name@, n, desc@));
            lemma_map_step(cs, count_line(), i as int);
        }
        let mut cmd = "--apply ".to_string();
        cmd.append(name);
        let left = pad_right(cmd.as_str(), 22);
        let number = count_text(n);
        let right = pad_left(number.as_str(), 6);
        let mut line = "    ".to_string();
        line.append(left.as_str());
        line.append(" ");
        line.append(right.as_str());
        line.append(" tag(s)   ");
        line.append(desc);
        push_item(&mut out, line);
        assert(out.deep_view() =~= head + cs.take(i + 1).map_values(count_line()));
        i = i + 1;
    }
    proof {
        lemma_take_all(cs);
    }
    if let Some(note) = &p.non_released_note {
        let mut line = "    (non-released count unavailable — ".to_string();
        line.append(note.as_str());
        line.append(")");
        push_item(&mut out, line);
    }
    say(&mut out, "");
    say(&mut out, "    e.g.   --apply move,redundant        --apply all");
    if copy {
        say(
            &mut out,
            "    (--copy makes 'move' a non-destructive copy and skips every delete group)",
        );
    }
    push_item(&mut out, say_untouched(p));
    let mut last = "Already in the right place (no change needed): ".to_string();
    append_count(&mut last, p.already_placed);
    push_item(&mut out, last);
    assert(out.deep_view() =~= summary_lines(p.deep_view(), copy));
    out
}

/// `repo/image:tag`.
pub open spec fn full_name(t: TagRefView) -> Seq<char> {
    t.source_repo + "/"@ + t.image + ":"@ + t.tag
}

/// Append `repo/image:tag` to a text.
pub(crate) fn append_name(s: &mut String, t: &TagRef)
    ensures
        final(s)@ == old(s)@ + full_name(t.deep_view()),
{
    let ghost before = s@;
    s.append(t.source_repo.as_str());
    s.append("/");
    s.append(t.image.as_str());
    s.append(":");
    s.append(t.tag.as_str());
    assert(s@ =~= before + full_name(t.deep_view()));
}

/// Takes the listing line of a deletion that belongs to a group.
pub open spec fn delete_line(p: ResolvedView, g: Seq<char>) -> spec_fn(DeleteItemView) -> Option<
    Seq<char>,
> {
    |d: DeleteItemView|
        if group_of(d) == g {
            Some("     "@ + full_name(d.tag) + " (created "@ + created_of(p, d.tag) + ")"@)
        } else {
            None
        }
}

/// The deletions of a group, one line each, sorted.
pub fn print_delete_listing(p: &ResolvedPlan, g: &str) -> (out: Vec<String>)
    ensures
        out.deep_view() == sorted_texts(
            p.deep_view().deletes.filter_map(delete_line(p.deep_view(), g@)),
        ),
{
    let ghost all = p.deletes.deep_view();
    let ghost f = delete_line(p.deep_view(), g@);
    let mut lines: Vec<String> = Vec::new();
    let mut i: usize = 0;
    assert(lines.deep_view() =~= all.take(0).filter_map(f));
    while i < p.deletes.len()
        invariant
            all == p.deletes.deep_view(),
            f == delete_line(p.deep_view(), g@),
            i <= p.deletes@.len(),
            lines.deep_view() == all.take(i as int).filter_map(f),
        decreases p.deletes@.len() - i,
    {
        let d = &p.deletes[i];
        proof {
            lemma_filter_map_step(all, f, i as int);
            assert(all[i as int] == d.deep_view());
        }
        if same_text(delete_group(d), g) {
            let date = p.created_date(&d.tag);
            let mut line = "     ".to_string();
            append_name(&mut line, &d.tag);
            line.append(" (created ");
            line.append(date.as_str());
            line.append(")");
            push_item(&mut lines, line);
        }
        i = i + 1;
    }
    proof {
        lemma_take_all(all);
    }
    sort_list(lines)
}

/// Where to find the full per-tag move list.
pub fn move_list_hint(verbose: bool) -> (r: &'static str)
    ensures
        r@ == hint_line(verbose),
{
    if verbose {
        "(full per-tag list: Detail section at the end of this dry run)"
    } else {
        "(full per-tag list: --verbose)"
    }
}

/// Where the full per-tag move list is found.
pub open spec fn hint_line(verbose: bool) -> Seq<char> {
    if verbose {
        "(full per-tag list: Detail section at the end of this dry run)"@
    } else {
        "(full per-tag list: --verbose)"@
    }
}

/// The destinations of moves, as keys.
pub open spec fn dest_list(moves: Seq<PlannedMoveView>) -> Seq<Seq<Seq<char>>> {
    moves.map_values(|m: PlannedMoveView| key1(m.dest))
}

/// The sources of moves, as keys.
pub open spec fn source_list(moves: Seq<PlannedMoveView>) -> Seq<Seq<Seq<char>>> {
    moves.map_values(|m: PlannedMoveView| key1(m.source_repo))
}

/// The classes that route to a destination, in brackets, where there are any.
pub open spec fn class_note(
    classes: Seq<(Seq<Seq<char>>, Seq<Seq<char>>)>,
    dest: Seq<Seq<char>>,
) -> Seq<char> {
    match lookup(classes, dest) {
        Some(cs) => if joined(cs, ", "@).len() > 0 {
            "   ("@ + joined(cs, ", "@) + ")"@
        } else {
            Seq::empty()
        },
        None => Seq::empty(),
    }
}

/// The line of one destination.
pub open spec fn dest_line(
    classes: Seq<(Seq<Seq<char>>, Seq<Seq<char>>)>,
) -> spec_fn((Seq<Seq<char>>, usize)) -> Seq<char> {
    |e: (Seq<Seq<char>>, usize)|
        "     → "@ + padded_right(e.0[0], 28) + " "@ + padded_left(decimal(e.1 as nat), 7)
            + class_note(classes, e.0)
}

/// A repository with a count.
pub open spec fn counted() -> spec_fn((Seq<Seq<char>>, usize)) -> Seq<char> {
    |e: (Seq<Seq<char>>, usize)| e.0[0] + " "@ + decimal(e.1 as nat)
}

/// The section of the moves.
pub open spec fn move_section(
    p: ResolvedView,
    copy: bool,
    verbose: bool,
    classes: Seq<(Seq<Seq<char>>, Seq<Seq<char>>)>,
) -> Seq<Seq<char>> {
    seq![
        "\n▸ `--apply move` — "@ + DESC_MOVE@ + " — "@ + decimal(p.moves.len()) + " to be "@ + (
        if copy {
            "copied"@
        } else {
            "moved"@
        }),
    ] + (if p.moves.len() == 0 {
        Seq::empty()
    } else {
        tally_of(dest_list(p.moves)).map_values(dest_line(classes)) + seq![
            "     from: "@ + joined(
                tally_of(source_list(p.moves)).map_values(counted()),
                " · "@,
            ),
            "     "@ + hint_line(verbose),
        ]
    })
}

/// The destinations, or the sources, of moves.
fn repo_list(moves: &[PlannedMove], dests: bool) -> (r: Vec<String>)
    ensures
        list_keys(r@) == if dests {
            dest_list(moves.deep_view())
        } else {
            source_list(moves.deep_view())
        },
{
    let ghost ms = moves.deep_view();
    let ghost keys = if dests {
        dest_list(ms)
    } else {
        source_list(ms)
    };
    let mut out: Vec<String> = Vec::new();
    let mut i: usize = 0;
    assert(list_keys(out@) =~= keys.take(0));
    while i < moves.len()
        invariant
            ms == moves.deep_view(),
            keys == (if dests {
                dest_list(ms)
            } else {
                source_list(ms)
            }),
            i <= moves@.len(),
            list_keys(out@) == keys.take(i as int),
        decreases moves@.len() - i,
    {
        let ghost before = out@;
        let name = if dests {
            moves[i].dest.clone()
        } else {
            moves[i].source_repo.clone()
        };
        out.push(name);
        proof {
            lemma_take_push(keys, i as int);
            assert(ms[i as int] == moves@[i as int].deep_view());
            assert(list_keys(out@) =~= list_keys(before).push(keys[i as int]));
        }
        i = i + 1;
    }
    proof {
        lemma_take_all(keys);
    }
    out
}

/// The section of the moves.
fn say_moves(
    p: &ResolvedPlan,
    copy: bool,
    verbose: bool,
    classes: &OrderedMap<String, Vec<String>>,
) -> (out: Vec<String>)
    ensures
        out.deep_view() == move_section(p.deep_view(), copy, verbose, classes@),
{
    let mut out: Vec<String> = Vec::new();
    let mut head = "\n▸ `--apply move` — ".to_string();
    head.append(DESC_MOVE);
    head.append(" — ");
    append_count(&mut head, p.moves.len());
    head.append(" to be ");
    if copy {
        head.append("copied");
    } else {
        head.append("moved");
    }
    push_item(&mut out, head);
    if p.moves.len() > 0 {
        let ghost base = out.deep_view();
        let by_dest = tally(repo_list(p.moves.as_slice(), true));
        let ghost ds = by_dest@;
        let mut i: usize = 0;
        assert(out.deep_view() =~= base + ds.take(0).map_values(dest_line(classes@)));
        while i < by_dest.len()
            invariant
                ds == by_dest@,
                i <= ds.len(),
                out.deep_view() == base + ds.take(i as int).map_values(dest_line(classes@)),
            decreases ds.len() - i,
        {
            let dest = by_dest.key_at(i);
            let n: usize = *by_dest.value_at(i);
            proof {
                lemma_map_step(ds, dest_line(classes@), i as int);
                assert(ds[i as int].0 == key1(dest@));
                assert(ds[i as int].0[0] == dest@);
            }
            let name = pad_right(dest.as_str(), 28);
            let count = count_text(n);
            let number = pad_left(count.as_str(), 7);
            let mut line = "     → ".to_string();
            line.append(name.as_str());
            line.append(" ");
            line.append(number.as_str());
            let ghost so_far = line@;
            match classes.get(dest) {
                Some(cs) => {
                    let list = join(cs.as_slice(), ", ");
                    if !list.as_str().is_empty() {
                        line.append("   (");
                        line.append(list.as_str());
                        line.append(")");
                    }
                },
                None => {},
            }
            assert(line@ =~= so_far + class_note(classes@, key1(dest@)));
            push_item(&mut out, line);
            assert(out.deep_view() =~= base + ds.take(i + 1).map_values(dest_line(classes@)));
            i = i + 1;
        }
        proof {
            lemma_take_all(ds);
        }
        let by_src = tally(repo_list(p.moves.as_slice(), false));
        let ghost ss = by_src@;
        let mut parts: Vec<String> = Vec::new();
        let mut j: usize = 0;
        assert(parts.deep_view() =~= ss.take(0).map_values(counted()));
        while j < by_src.len()
            invariant
                ss == by_src@,
                j <= ss.len(),
                parts.deep_view() == ss.take(j as int).map_values(counted()),
            decreases ss.len() - j,
        {
            let name = by_src.key_at(j);
            let n: usize = *by_src.value_at(j);
            proof {
                lemma_map_step(ss, counted(), j as int);
                assert(ss[j as int].0 == key1(name@));
                assert(ss[j as int].0[0] == name@);
            }
            let mut part = name.clone();
            part.append(" ");
            append_count(&mut part, n);
            push_item(&mut parts, part);
            j = j + 1;
        }
        proof {
            lemma_take_all(ss);
        }
        let mut from = "     from: ".to_string();
        let list = join(parts.as_slice(), " · ");
        from.append(list.as_str());
        push_item(&mut out, from);
        let mut hint = "     ".to_string();
        hint.append(move_list_hint(verbose));
        push_item(&mut out, hint);
    }
    assert(out.deep_view() =~= move_section(p.deep_view(), copy, verbose, classes@));
    out
}

/// The section of a group of source-side deletions.
pub open spec fn delete_section(
    p: ResolvedView,
    group: Seq<char>,
    desc: Seq<char>,
) -> Seq<Seq<char>> {
    seq![
        "\n▸ `--apply "@ + group + "` — "@ + desc + " — "@ + decimal(
            p.deletes.filter(in_group(group)).len(),
        ) + " to be deleted"@,
    ] + sorted_texts(p.deletes.filter_map(delete_line(p, group)))
}

/// The section of a group of source-side deletions.
fn say_deletes(p: &ResolvedPlan, group: &str, desc: &str) -> (out: Vec<String>)
    ensures
        out.deep_view() == delete_section(p.deep_view(), group@, desc@),
{
    let mut head = "\n▸ `--apply ".to_string();
    head.append(group);
    head.append("` — ");
    head.append(desc);
    head.append(" — ");
    append_count(&mut head, count_in_group(p, group));
    head.append(" to be deleted");
    let mut out: Vec<String> = Vec::new();
    push_item(&mut out, head);
    push_all(&mut out, print_delete_listing(p, group));
    assert(out.deep_view() =~= delete_section(p.deep_view(), group@, desc@));
    out
}

/// A build date for display.
pub open spec fn shown_date(d: Option<Seq<char>>) -> Seq<char> {
    match d {
        Some(s) => date_part(s),
        None => "?"@,
    }
}

/// A build date for display.
fn show_date(d: &Option<String>) -> (r: String)
    ensures
        r@ == shown_date(d.deep_view()),
{
    match d {
        Some(s) => date_only(s.as_str()),
        None => "?".to_string(),
    }
}

/// The line of a dropped move whose source is newer.
pub open spec fn superseded_line() -> spec_fn(SupersededItemView) -> Seq<char> {
    |s: SupersededItemView|
        "     "@ + full_name(s.tag) + " (created "@ + shown_date(s.own_built) + ") — kept "@ + s.kept
            + " (created "@ + shown_date(s.winner_built) + ")"@
}

/// The dropped moves that are kept for review.
pub open spec fn newer_lines(p: ResolvedView) -> Seq<Seq<char>> {
    if p.superseded.len() == 0 {
        Seq::empty()
    } else {
        seq![
            "     plus "@ + decimal(p.superseded.len())
                + " kept for REVIEW — the source copy is NEWER than the kept copy:"@,
        ] + p.superseded.map_values(superseded_line())
    }
}

/// The dropped moves that are kept for review.
fn say_newer(p: &ResolvedPlan) -> (out: Vec<String>)
    ensures
        out.deep_view() == newer_lines(p.deep_view()),
{
    let mut out: Vec<String> = Vec::new();
    if p.superseded.len() > 0 {
        let mut head = "     plus ".to_string();
        append_count(&mut head, p.superseded.len());
        head.append(" kept for REVIEW — the source copy is NEWER than the kept copy:");
        push_item(&mut out, head);
        let ghost base = out.deep_view();
        let ghost all = p.superseded.deep_view();
        let mut i: usize = 0;
        assert(out.deep_view() =~= base + all.take(0).map_values(superseded_line()));
        while i < p.superseded.len()
            invariant
                all == p.superseded.deep_view(),
                i <= p.superseded@.len(),
                out.deep_view() == base + all.take(i as int).map_values(superseded_line()),
            decreases p.superseded@.len() - i,
        {
            let s = &p.superseded[i];
            proof {
                lemma_map_step(all, superseded_line(), i as int);
                assert(all[i as int] == s.deep_view());
            }
            let own = show_date(&s.own_built);
            let other = show_date(&s.winner_built);
            let mut line = "     ".to_string();
            append_name(&mut line, &s.tag);
            line.append(" (created ");
            line.append(own.as_str());
            line.append(") — kept ");
            line.append(s.kept.as_str());
            line.append(" (created ");
            line.append(other.as_str());
            line.append(")");
            push_item(&mut out, line);
            assert(out.deep_view() =~= base + all.take(i + 1).map_values(superseded_line()));
            i = i + 1;
        }
        proof {
            lemma_take_all(all);
        }
    }
    assert(out.deep_view() =~= newer_lines(p.deep_view()));
    out
}

/// An optional text, `?` where there is none.
pub open spec fn or_unknown(s: Option<Seq<char>>) -> Seq<char> {
    match s {
        Some(t) => t,
        None => "?"@,
    }
}

/// The lines of evidence of a mismatch.
pub open spec fn evidence_lines(m: MismatchInfoView) -> Seq<Seq<char>> {
    seq![
        "            source ("@ + m.tag.source_repo + "): created "@ + or_unknown(m.source_built)
            + "  ["@ + short_digest(m.source_digest) + "]"@,
        "            check  ("@ + m.check_repo + "): created "@ + or_unknown(m.check_built) + "  ["@
            + short_digest(m.check_digest) + "]"@,
        "            -> "@ + m.assessment(),
        "            -> "@ + m.recommendation(),
    ]
}

/// Both digests of a mismatch can be shortened for display.
pub open spec fn showable(m: MismatchInfoView) -> bool {
    shortenable(m.source_digest) && shortenable(m.check_digest)
}

/// Whether every mismatch can be shown.
pub fn all_showable(items: &[MismatchInfo]) -> (r: bool)
    ensures
        r == forall|i: int| 0 <= i < items@.len() ==> showable(#[trigger] items@[i].deep_view()),
{
    let mut i: usize = 0;
    while i < items.len()
        invariant
            i <= items@.len(),
            forall|j: int| 0 <= j < i ==> showable(#[trigger] items@[j].deep_view()),
        decreases items@.len() - i,
    {
        let m = &items[i];
        assert(items@[i as int].deep_view() == m.deep_view());
        if !can_shorten(m.source_digest.as_str()) || !can_shorten(m.check_digest.as_str()) {
            return false;
        }
        i = i + 1;
    }
    true
}

/// One side of the evidence.
fn evidence_side(lead: &str, repo: &str, built: &Option<String>, digest: &str) -> (s: String)
    requires
        shortenable(digest@),
    ensures
        s@ == lead@ + repo@ + "): created "@ + or_unknown(built.deep_view()) + "  ["@
            + short_digest(digest@) + "]"@,
{
    let mut s = lead.to_string();
    s.append(repo);
    s.append("): created ");
    match built {
        Some(b) => s.append(b.as_str()),
        None => s.append("?"),
    }
    s.append("  [");
    let d = short(digest);
    s.append(d.as_str());
    s.append("]");
    s
}

/// The two-sided evidence for a mismatch with an assessment and a
/// recommendation.
pub fn print_mismatch_evidence(m: &MismatchInfo) -> (out: Vec<String>)
    requires
        showable(m.deep_view()),
    ensures
        out.deep_view() == evidence_lines(m.deep_view()),
{
    let mut out: Vec<String> = Vec::new();
    push_item(
        &mut out,
        evidence_side(
            "            source (",
            m.tag.source_repo.as_str(),
            &m.source_built,
            m.source_digest.as_str(),
        ),
    );
    push_item(
        &mut out,
        evidence_side(
            "            check  (",
            m.check_repo.as_str(),
            &m.check_built,
            m.check_digest.as_str(),
        ),
    );
    let mut third = "            -> ".to_string();
    third.append(m.assessment());
    push_item(&mut out, third);
    let mut fourth = "            -> ".to_string();
    fourth.append(m.recommendation());
    push_item(&mut out, fourth);
    assert(out.deep_view() =~= evidence_lines(m.deep_view()));
    out
}

/// The lines of one mismatch.
pub open spec fn mismatch_lines() -> spec_fn(MismatchInfoView) -> Seq<Seq<char>> {
    |m: MismatchInfoView|
        seq![
            "     "@ + full_name(m.tag) + "  ["@ + (if m.deletable() {
                "DELETE on --apply mismatch"@
            } else {
                "KEPT for review"@
            }) + "]"@,
        ] + evidence_lines(m)
}

/// The section of the mismatches.
pub open spec fn mismatch_section(p: ResolvedView) -> Seq<Seq<char>> {
    seq![
        "\n▸ `--apply mismatch` — "@ + DESC_MISMATCH@ + " — "@ + decimal(
            p.mismatched.filter(may_delete()).len(),
        ) + " to be deleted from source; "@ + decimal(p.mismatched.filter(must_review()).len())
            + " kept for review"@,
    ] + spread(p.mismatched, mismatch_lines())
}

/// The section of the mismatches.
fn say_mismatches(p: &ResolvedPlan) -> (out: Vec<String>)
    requires
        forall|i: int| 0 <= i < p.mismatched@.len() ==> showable(#[trigger] p.mismatched@[i].deep_view()),
    ensures
        out.deep_view() == mismatch_section(p.deep_view()),
{
    let (del, review) = count_mismatches(p);
    let mut head = "\n▸ `--apply mismatch` — ".to_string();
    head.append(DESC_MISMATCH);
    head.append(" — ");
    append_count(&mut head, del);
    head.append(" to be deleted from source; ");
    append_count(&mut head, review);
    head.append(" kept for review");
    let mut out: Vec<String> = Vec::new();
    push_item(&mut out, head);
    let ghost base = out.deep_view();
    let ghost all = p.mismatched.deep_view();
    let mut i: usize = 0;
    assert(out.deep_view() =~= base + spread(all.take(0), mismatch_lines()));
    while i < p.mismatched.len()
        invariant
            forall|i: int|
                0 <= i < p.mismatched@.len() ==> showable(#[trigger] p.mismatched@[i].deep_view()),
            all == p.mismatched.deep_view(),
            i <= p.mismatched@.len(),
            out.deep_view() == base + spread(all.take(i as int), mismatch_lines()),
        decreases p.mismatched@.len() - i,
    {
        let m = &p.mismatched[i];
        proof {
            lemma_spread_step(all, mismatch_lines(), i as int);
            assert(all[i as int] == m.deep_view());
        }
        let mut line = "     ".to_string();
        append_name(&mut line, &m.tag);
        line.append("  [");
        if m.recommends_delete() {
            line.append("DELETE on --apply mismatch");
        } else {
            line.append("KEPT for review");
        }
        line.append("]");
        push_item(&mut out, line);
        push_all(&mut out, print_mismatch_evidence(m));
        assert(out.deep_view() =~= base + spread(all.take(i + 1), mismatch_lines()));
        i = i + 1;
    }
    proof {
        lemma_take_all(all);
    }
    out
}

/// The line of one image with its tags.
pub open spec fn image_line(indent: Seq<char>) -> spec_fn((Seq<Seq<char>>, Seq<Seq<char>>)) -> Seq<
    char,
> {
    |g: (Seq<Seq<char>>, Seq<Seq<char>>)| indent + g.0[0] + ": "@ + joined(g.1, ", "@)
}

/// Some tags by image, one line per image.
pub open spec fn image_lines(tags: Seq<TagRefView>, indent: Seq<char>) -> Seq<Seq<char>> {
    sorted_groups(group_by(image_items(tags))).map_values(image_line(indent))
}

/// The lines of a grouping by image.
pub(crate) fn say_groups(groups: &OrderedMap<String, Vec<String>>, indent: &str) -> (out: Vec<String>)
    ensures
        out.deep_view() == groups@.map_values(image_line(indent@)),
{
    let ghost gs = groups@;
    let mut out: Vec<String> = Vec::new();
    let mut i: usize = 0;
    assert(out.deep_view() =~= gs.take(0).map_values(image_line(indent@)));
    while i < groups.len()
        invariant
            gs == groups@,
            i <= gs.len(),
            out.deep_view() == gs.take(i as int).map_values(image_line(indent@)),
        decreases gs.len() - i,
    {
        let image = groups.key_at(i);
        let tags = groups.value_at(i);
        proof {
            lemma_map_step(gs, image_line(indent@), i as int);
            assert(gs[i as int].0 == key1(image@));
            assert(gs[i as int].0[0] == image@);
        }
        let mut line = indent.to_string();
        line.append(image.as_str());
        line.append(": ");
        let list = join(tags.as_slice(), ", ");
        line.append(list.as_str());
        push_item(&mut out, line);
        i = i + 1;
    }
    proof {
        lemma_take_all(gs);
    }
    out
}

/// Some tags by image, one line per image.
pub(crate) fn say_images(tags: &[TagRef], indent: &str) -> (out: Vec<String>)
    ensures
        out.deep_view() == image_lines(tags.deep_view(), indent@),
{
    say_groups(&tags_by_image(tags), indent)
}

/// Tags keyed by the repository they are in.
pub open spec fn repo_items(tags: Seq<TagRefView>) -> Seq<(Seq<Seq<char>>, TagRefView)> {
    tags.map_values(|t: TagRefView| (key1(t.source_repo), t))
}

/// Group tags by the repository they are in.
pub(crate) fn by_repo(tags: &[TagRef]) -> (r: OrderedMap<String, Vec<TagRef>>)
    ensures
        r@ == group_by(repo_items(tags.deep_view())),
{
    let ghost all = tags.deep_view();
    let mut items: Vec<(String, TagRef)> = Vec::new();
    let mut i: usize = 0;
    assert(entry_views(items@) =~= repo_items(all.take(0)));
    while i < tags.len()
        invariant
            all == tags.deep_view(),
            i <= tags@.len(),
            entry_views(items@) == repo_items(all.take(i as int)),
        decreases tags@.len() - i,
    {
        let t = &tags[i];
        let ghost before = items@;
        items.push((t.source_repo.clone(), t.clone()));
        proof {
            assert(all[i as int] == t.deep_view());
            assert(entry_views(items@) =~= entry_views(before).push(
                (key1(t.source_repo@), t.deep_view()),
            ));
            assert(repo_items(all.take(i + 1)) =~= repo_items(all.take(i as int)).push(
                (key1(t.source_repo@), t.deep_view()),
            ));
        }
        i = i + 1;
    }
    proof {
        lemma_take_all(all);
    }
    group(items)
}

/// The retired tags of one repository.
pub open spec fn retired_lines() -> spec_fn((Seq<Seq<char>>, Seq<TagRefView>)) -> Seq<Seq<char>> {
    |g: (Seq<Seq<char>>, Seq<TagRefView>)|
        seq!["     in "@ + g.0[0] + ":"@] + image_lines(g.1, "        "@)
}

/// The section of the retired namespaces.
pub open spec fn retired_section(p: ResolvedView) -> Seq<Seq<char>> {
    seq![
        "\n▸ `--apply retired` — "@ + DESC_RETIRED@ + " — "@ + decimal(p.prefix_deletes.len())
            + " to be deleted from source"@,
    ] + spread(group_by(repo_items(p.prefix_deletes)), retired_lines())
}

/// The section of the retired namespaces.
fn say_retired(p: &ResolvedPlan) -> (out: Vec<String>)
    ensures
        out.deep_view() == retired_section(p.deep_view()),
{
    let mut head = "\n▸ `--apply retired` — ".to_string();
    head.append(DESC_RETIRED);
    head.append(" — ");
    append_count(&mut head, p.prefix_deletes.len());
    head.append(" to be deleted from source");
    let mut out: Vec<String> = Vec::new();
    push_item(&mut out, head);
    let ghost base = out.deep_view();
    let groups = by_repo(p.prefix_deletes.as_slice());
    let ghost gs = groups@;
    let mut i: usize = 0;
    assert(out.deep_view() =~= base + spread(gs.take(0), retired_lines()));
    while i < groups.len()
        invariant
            gs == groups@,
            i <= gs.len(),
            out.deep_view() == base + spread(gs.take(i as int), retired_lines()),
        decreases gs.len() - i,
    {
        let repo = groups.key_at(i);
        let tags = groups.value_at(i);
        proof {
            lemma_spread_step(gs, retired_lines(), i as int);
            assert(gs[i as int].0 == key1(repo@));
            assert(gs[i as int].0[0] == repo@);
        }
        let mut line = "     in ".to_string();
        line.append(repo.as_str());
        line.append(":");
        push_item(&mut out, line);
        push_all(&mut out, say_images(tags.as_slice(), "        "));
        assert(out.deep_view() =~= base + spread(gs.take(i + 1), retired_lines()));
        i = i + 1;
    }
    proof {
        lemma_take_all(gs);
    }
    out
}

/// The section of the comparison with the upstream.
pub open spec fn non_released_section(p: ResolvedView) -> Seq<Seq<char>> {
    seq![
        "\n▸ `--apply non-released` — "@ + DESC_NON_RELEASED@ + " — "@ + decimal(
            p.non_released.len(),
        ) + " to be deleted from the local cache"@,
    ] + (match p.non_released_note {
        Some(note) => seq!["     unavailable — "@ + note],
        None => image_lines(p.non_released, "     "@) + (if p.copy_upstream.len() == 0 {
            Seq::empty()
        } else {
            seq![
                "     plus "@ + decimal(p.copy_upstream.len())
                    + " released x.y.z tag(s) the UPSTREAM is missing → copy them upstream (review, never deleted):"@,
            ] + image_lines(p.copy_upstream, "        "@)
        }),
    })
}

/// The section of the comparison with the upstream.
fn say_non_released(p: &ResolvedPlan) -> (out: Vec<String>)
    ensures
        out.deep_view() == non_released_section(p.deep_view()),
{
    let mut head = "\n▸ `--apply non-released` — ".to_string();
    head.append(DESC_NON_RELEASED);
    head.append(" — ");
    append_count(&mut head, p.non_released.len());
    head.append(" to be deleted from the local cache");
    let mut out: Vec<String> = Vec::new();
    push_item(&mut out, head);
    match &p.non_released_note {
        Some(note) => {
            let mut line = "     unavailable — ".to_string();
            line.append(note.as_str());
            push_item(&mut out, line);
        },
        None => {
            push_all(&mut out, say_images(p.non_released.as_slice(), "     "));
            if p.copy_upstream.len() > 0 {
                let mut line = "     plus ".to_string();
                append_count(&mut line, p.copy_upstream.len());
                line.append(
                    " released x.y.z tag(s) the UPSTREAM is missing → copy them upstream (review, never deleted):",
                );
                push_item(&mut out, line);
                push_all(&mut out, say_images(p.copy_upstream.as_slice(), "        "));
            }
        },
    }
    assert(out.deep_view() =~= non_released_section(p.deep_view()));
    out
}

/// All sections, in report order.
pub open spec fn group_sections(
    p: ResolvedView,
    copy: bool,
    verbose: bool,
    classes: Seq<(Seq<Seq<char>>, Seq<Seq<char>>)>,
) -> Seq<Seq<char>> {
    move_section(p, copy, verbose, classes) + delete_section(p, GROUP_REDUNDANT@, DESC_REDUNDANT@)
        + delete_section(p, GROUP_SUPERSEDED@, DESC_SUPERSEDED@) + newer_lines(p)
        + mismatch_section(p) + retired_section(p) + non_released_section(p)
}

/// One section per action group, each with its full listing.
pub fn print_group_sections(
    p: &ResolvedPlan,
    copy: bool,
    verbose: bool,
    classes: &OrderedMap<String, Vec<String>>,
) -> (out: Vec<String>)
    requires
        forall|i: int| 0 <= i < p.mismatched@.len() ==> showable(#[trigger] p.mismatched@[i].deep_view()),
    ensures
        out.deep_view() == group_sections(p.deep_view(), copy, verbose, classes@),
{
    let mut out = say_moves(p, copy, verbose, classes);
    push_all(&mut out, say_deletes(p, GROUP_REDUNDANT, DESC_REDUNDANT));
    push_all(&mut out, say_deletes(p, GROUP_SUPERSEDED, DESC_SUPERSEDED));
    push_all(&mut out, say_newer(p));
    push_all(&mut out, say_mismatches(p));
    push_all(&mut out, say_retired(p));
    push_all(&mut out, say_non_released(p));
    out
}

} // verus!
