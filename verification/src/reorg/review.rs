//! The rest of the printed plan: what is only for review, the full list of
//! moves, and whether moved tags survive at their destination.
use crate::ordered::{
    entry_views, group, group_by, key1, key2, keys_of, lemma_sorted_keys, list_keys, lookup,
    sort_list, sorted_keys, sorted_texts, tally, tally_of, value_under, values_for, OrderedMap,
};
use crate::reorg::evidence::{TriageItem, TriageItemView};
use crate::reorg::plan::{PlannedMove, PlannedMoveView, TagRef, TagRefView};
use crate::reorg::report::{
    append_count, by_repo, group_sections, image_line, image_lines, print_group_sections,
    print_summary, repo_items, say, say_groups, say_images, showable, summary_lines,
};
use crate::reorg::resolve::{created_of, ResolvedPlan, ResolvedView};
use crate::seqs::{
    lemma_filter_map_contains, lemma_filter_step, lemma_map_step, lemma_spread_step, lemma_take_all,
    lemma_take_push, push_all, push_item, spread,
};
use crate::text::{decimal, join, joined, number_text};
use crate::time::{days_between, whole_days, Timestamp};
use vstd::prelude::*;

verus! {

/// Tags of one repository keyed by image, each with its build date.
pub open spec fn dated_items(p: ResolvedView, tags: Seq<TagRefView>) -> Seq<
    (Seq<Seq<char>>, Seq<char>),
> {
    tags.map_values(
        |t: TagRefView| (key1(t.image), t.tag + " (created "@ + created_of(p, t) + ")"@),
    )
}

/// The restore candidates of one repository.
pub open spec fn candidate_lines(p: ResolvedView) -> spec_fn(
    (Seq<Seq<char>>, Seq<TagRefView>),
) -> Seq<Seq<char>> {
    |g: (Seq<Seq<char>>, Seq<TagRefView>)|
        seq!["     in "@ + g.0[0] + ":"@] + group_by(dated_items(p, g.1)).map_values(
            image_line("        "@),
        )
}

/// The insight images that the upstream lacks.
pub open spec fn absent_section(p: ResolvedView) -> Seq<Seq<char>> {
    if p.insight_absent.len() == 0 {
        Seq::empty()
    } else {
        seq![
            "\n  Restore-to-insight candidates ("@ + decimal(p.insight_absent.len())
                + ")  → push to insight, or delete as stale (may have been pruned)"@,
        ] + spread(group_by(repo_items(p.insight_absent)), candidate_lines(p))
    }
}

/// Group dated tags by image.
fn dated_groups(p: &ResolvedPlan, tags: &[TagRef]) -> (r: OrderedMap<String, Vec<String>>)
    ensures
        r@ == group_by(dated_items(p.deep_view(), tags.deep_view())),
{
    let ghost pv = p.deep_view();
    let ghost all = tags.deep_view();
    let mut items: Vec<(String, String)> = Vec::new();
    let mut i: usize = 0;
    assert(entry_views(items@) =~= dated_items(pv, all.take(0)));
    while i < tags.len()
        invariant
            pv == p.deep_view(),
            all == tags.deep_view(),
            i <= tags@.len(),
            entry_views(items@) == dated_items(pv, all.take(i as int)),
        decreases tags@.len() - i,
    {
        let t = &tags[i];
        let date = p.created_date(t);
        let mut text = t.tag.clone();
        text.append(" (created ");
        text.append(date.as_str());
        text.append(")");
        let ghost before = items@;
        let ghost shown = text@;
        items.push((t.image.clone(), text));
        proof {
            assert(all[i as int] == t.deep_view());
            assert(entry_views(items@) =~= entry_views(before).push(
                (key1(t.image@), shown),
            ));
            assert(dated_items(pv, all.take(i + 1)) =~= dated_items(pv, all.take(i as int)).push(
                (key1(t.image@), shown),
            ));
        }
        i = i + 1;
    }
    proof {
        lemma_take_all(all);
    }
    group(items)
}

/// The insight images that the upstream lacks.
fn say_absent(p: &ResolvedPlan) -> (out: Vec<String>)
    ensures
        out.deep_view() == absent_section(p.deep_view()),
{
    let mut out: Vec<String> = Vec::new();
    if p.insight_absent.len() > 0 {
        let mut head = "\n  Restore-to-insight candidates (".to_string();
        append_count(&mut head, p.insight_absent.len());
        head.append(")  → push to insight, or delete as stale (may have been pruned)");
        push_item(&mut out, head);
        let ghost base = out.deep_view();
        let ghost pv = p.deep_view();
        let groups = by_repo(p.insight_absent.as_slice());
        let ghost gs = groups@;
        let mut i: usize = 0;
        assert(out.deep_view() =~= base + spread(gs.take(0), candidate_lines(pv)));
        while i < groups.len()
            invariant
                pv == p.deep_view(),
                gs == groups@,
                i <= gs.len(),
                out.deep_view() == base + spread(gs.take(i as int), candidate_lines(pv)),
            decreases gs.len() - i,
        {
            let repo = groups.key_at(i);
            let tags = groups.value_at(i);
            proof {
                lemma_spread_step(gs, candidate_lines(pv), i as int);
                assert(gs[i as int].0 == key1(repo@));
                assert(gs[i as int].0[0] == repo@);
            }
            let mut line = "     in ".to_string();
            line.append(repo.as_str());
            line.append(":");
            push_item(&mut out, line);
            push_all(&mut out, say_groups(&dated_groups(p, tags.as_slice()), "        "));
            assert(out.deep_view() =~= base + spread(gs.take(i + 1), candidate_lines(pv)));
            i = i + 1;
        }
        proof {
            lemma_take_all(gs);
        }
    }
    assert(out.deep_view() =~= absent_section(p.deep_view()));
    out
}

/// The repositories of some tags, as keys.
pub open spec fn repo_keys(tags: Seq<TagRefView>) -> Seq<Seq<Seq<char>>> {
    tags.map_values(|t: TagRefView| key1(t.source_repo))
}

/// A repository with a count in brackets.
pub open spec fn bracketed() -> spec_fn((Seq<Seq<char>>, usize)) -> Seq<char> {
    |e: (Seq<Seq<char>>, usize)| e.0[0] + " ("@ + decimal(e.1 as nat) + ")"@
}

/// The remainder of the repositories to be purged.
pub open spec fn purge_section(p: ResolvedView) -> Seq<Seq<char>> {
    if p.purges.len() == 0 {
        Seq::empty()
    } else {
        seq![
            "\n  Purge-repo remainder ("@ + decimal(p.purges.len())
                + ")  → dead cache; first-party already re-homed, delete the repo wholesale: "@
                + joined(tally_of(repo_keys(p.purges)).map_values(bracketed()), ", "@),
        ]
    }
}

/// The remainder of the repositories to be purged.
fn say_purges(p: &ResolvedPlan) -> (out: Vec<String>)
    ensures
        out.deep_view() == purge_section(p.deep_view()),
{
    let mut out: Vec<String> = Vec::new();
    if p.purges.len() > 0 {
        let ghost keys = repo_keys(p.purges.deep_view());
        let mut list: Vec<String> = Vec::new();
        let mut i: usize = 0;
        assert(list_keys(list@) =~= keys.take(0));
        while i < p.purges.len()
            invariant
                keys == repo_keys(p.purges.deep_view()),
                i <= p.purges@.len(),
                list_keys(list@) == keys.take(i as int),
            decreases p.purges@.len() - i,
        {
            let ghost before = list@;
            let name = p.purges[i].source_repo.clone();
            list.push(name);
            proof {
                lemma_take_push(keys, i as int);
                assert(keys[i as int] == key1(name@));
                assert(list_keys(list@) =~= list_keys(before).push(keys[i as int]));
            }
            i = i + 1;
        }
        proof {
            lemma_take_all(keys);
        }
        let counts = tally(list);
        let ghost cs = counts@;
        let mut parts: Vec<String> = Vec::new();
        let mut j: usize = 0;
        assert(parts.deep_view() =~= cs.take(0).map_values(bracketed()));
        while j < counts.len()
            invariant
                cs == counts@,
                j <= cs.len(),
                parts.deep_view() == cs.take(j as int).map_values(bracketed()),
            decreases cs.len() - j,
        {
            let name = counts.key_at(j);
            let n: usize = *counts.value_at(j);
            proof {
                lemma_map_step(cs, bracketed(), j as int);
                assert(cs[j as int].0 == key1(name@));
                assert(cs[j as int].0[0] == name@);
            }
            let mut part = name.clone();
            part.append(" (");
            append_count(&mut part, n);
            part.append(")");
            push_item(&mut parts, part);
            j = j + 1;
        }
        proof {
            lemma_take_all(cs);
        }
        let mut line = "\n  Purge-repo remainder (".to_string();
        append_count(&mut line, p.purges.len());
        line.append(
            ")  → dead cache; first-party already re-homed, delete the repo wholesale: ",
        );
        let all = join(parts.as_slice(), ", ");
        line.append(all.as_str());
        push_item(&mut out, line);
    }
    assert(out.deep_view() =~= purge_section(p.deep_view()));
    out
}

/// Tags to be classified, keyed by image.
pub open spec fn triage_items(items: Seq<TriageItemView>) -> Seq<(Seq<Seq<char>>, TriageItemView)> {
    items.map_values(|t: TriageItemView| (key1(t.tag.image), t))
}

/// The tag of a triage item.
pub open spec fn triage_tag() -> spec_fn(TriageItemView) -> Seq<char> {
    |t: TriageItemView| t.tag.tag
}

/// The line of one image to be classified: the evidence of its first tag, and
/// its tags sorted.
pub open spec fn triage_line() -> spec_fn((Seq<Seq<char>>, Seq<TriageItemView>)) -> Seq<char> {
    |g: (Seq<Seq<char>>, Seq<TriageItemView>)|
        "     "@ + g.0[0] + " — "@ + g.1[0].hint() + " — "@ + joined(
            sorted_texts(g.1.map_values(triage_tag())),
            ", "@,
        )
}

/// The images to be classified.
pub open spec fn triage_section(p: ResolvedView) -> Seq<Seq<char>> {
    if p.needs_classification.len() == 0 {
        Seq::empty()
    } else {
        seq![
            "\n  Needs classification ("@ + decimal(p.needs_classification.len())
                + ")  → add each image to insight_images or aux_images, then re-run"@,
        ] + group_by(triage_items(p.needs_classification)).map_values(triage_line())
    }
}

/// A group of a grouping is never empty.
proof fn lemma_group_nonempty<W>(items: Seq<(Seq<Seq<char>>, W)>, i: int)
    requires
        0 <= i < group_by(items).len(),
    ensures
        group_by(items)[i].1.len() > 0,
{
    let keys = keys_of(items);
    let k = sorted_keys(keys)[i];
    lemma_sorted_keys(keys);
    assert(sorted_keys(keys).contains(k));
    let n = choose|n: int| 0 <= n < keys.len() && keys[n] == k;
    assert(value_under::<W>(k)(items[n]) == Some(items[n].1));
    lemma_filter_map_contains(
        items,
        value_under(k),
        items[n].1,
    );
    assert(values_for(items, k).contains(items[n].1));
}

/// The images to be classified.
fn say_triage(p: &ResolvedPlan) -> (out: Vec<String>)
    ensures
        out.deep_view() == triage_section(p.deep_view()),
{
    let mut out: Vec<String> = Vec::new();
    if p.needs_classification.len() > 0 {
        let mut head = "\n  Needs classification (".to_string();
        append_count(&mut head, p.needs_classification.len());
        head.append(")  → add each image to insight_images or aux_images, then re-run");
        push_item(&mut out, head);
        let ghost base = out.deep_view();
        let ghost all = p.needs_classification.deep_view();
        let mut items: Vec<(String, &TriageItem)> = Vec::new();
        let mut i: usize = 0;
        assert(entry_views(items@) =~= triage_items(all.take(0)));
        while i < p.needs_classification.len()
            invariant
                all == p.needs_classification.deep_view(),
                i <= p.needs_classification@.len(),
                entry_views(items@) == triage_items(all.take(i as int)),
            decreases p.needs_classification@.len() - i,
        {
            let t = &p.needs_classification[i];
            let ghost before = items@;
            items.push((t.tag.image.clone(), t));
            proof {
                assert(all[i as int] == t.deep_view());
                assert(entry_views(items@) =~= entry_views(
                    before,
                ).push((key1(t.tag.image@), t.deep_view())));
                assert(triage_items(all.take(i + 1)) =~= triage_items(all.take(i as int)).push(
                    (key1(t.tag.image@), t.deep_view()),
                ));
            }
            i = i + 1;
        }
        proof {
            lemma_take_all(all);
        }
        let groups = group(items);
        let ghost gs = groups@;
        let mut j: usize = 0;
        assert(out.deep_view() =~= base + gs.take(0).map_values(triage_line()));
        while j < groups.len()
            invariant
                gs == groups@,
                gs == group_by(triage_items(all)),
                j <= gs.len(),
                out.deep_view() == base + gs.take(j as int).map_values(triage_line()),
            decreases gs.len() - j,
        {
            let image = groups.key_at(j);
            let list = groups.value_at(j);
            proof {
                lemma_map_step(gs, triage_line(), j as int);
                lemma_group_nonempty(triage_items(all), j as int);
                assert(gs[j as int].0 == key1(image@));
                assert(gs[j as int].0[0] == image@);
            }
            let ghost ts = list.deep_view();
            let mut tags: Vec<String> = Vec::new();
            let mut k: usize = 0;
            assert(tags.deep_view() =~= ts.take(0).map_values(triage_tag()));
            while k < list.len()
                invariant
                    ts == list.deep_view(),
                    k <= list@.len(),
                    tags.deep_view() == ts.take(k as int).map_values(triage_tag()),
                decreases list@.len() - k,
            {
                proof {
                    lemma_map_step(ts, triage_tag(), k as int);
                    assert(ts[k as int] == list@[k as int].deep_view());
                }
                push_item(&mut tags, list[k].tag.tag.clone());
                k = k + 1;
            }
            proof {
                lemma_take_all(ts);
                assert(ts[0] == list@[0].deep_view());
            }
            let sorted = sort_list(tags);
            let names = join(sorted.as_slice(), ", ");
            let mut line = "     ".to_string();
            line.append(image.as_str());
            line.append(" — ");
            line.append(list[0].hint());
            line.append(" — ");
            line.append(names.as_str());
            push_item(&mut out, line);
            assert(out.deep_view() =~= base + gs.take(j + 1).map_values(triage_line()));
            j = j + 1;
        }
        proof {
            lemma_take_all(gs);
        }
    }
    assert(out.deep_view() =~= triage_section(p.deep_view()));
    out
}

/// The tags that no rule matched.
pub open spec fn unmatched_section(p: ResolvedView) -> Seq<Seq<char>> {
    if p.leaves.len() == 0 {
        Seq::empty()
    } else {
        seq![
            "\n  Unmatched ("@ + decimal(p.leaves.len())
                + ")  → no rule matched; add a rule or leave in place"@,
        ] + image_lines(p.leaves, "     "@)
    }
}

/// The tags that stay because they are in the check repo.
pub open spec fn kept_section(p: ResolvedView) -> Seq<Seq<char>> {
    if p.kept.len() == 0 {
        Seq::empty()
    } else {
        seq![
            "\n  Kept ("@ + decimal(p.kept.len())
                + ")  → already present in the check repo, left in place (informational)"@,
        ]
    }
}

/// What no group touches.
pub open spec fn review_lines(p: ResolvedView) -> Seq<Seq<char>> {
    if p.insight_absent.len() == 0 && p.purges.len() == 0 && p.needs_classification.len() == 0
        && p.leaves.len() == 0 && p.kept.len() == 0 {
        Seq::empty()
    } else {
        seq!["\n▸ Review only — no --apply group touches these:"@] + absent_section(p)
            + purge_section(p) + triage_section(p) + unmatched_section(p) + kept_section(p)
    }
}

/// Review-only leftovers that no group touches.
pub fn print_review_only(p: &ResolvedPlan) -> (out: Vec<String>)
    ensures
        out.deep_view() == review_lines(p.deep_view()),
{
    let mut out: Vec<String> = Vec::new();
    if p.insight_absent.len() == 0 && p.purges.len() == 0 && p.needs_classification.len() == 0
        && p.leaves.len() == 0 && p.kept.len() == 0 {
        assert(out.deep_view() =~= review_lines(p.deep_view()));
        return out;
    }
    say(&mut out, "\n▸ Review only — no --apply group touches these:");
    push_all(&mut out, say_absent(p));
    push_all(&mut out, say_purges(p));
    push_all(&mut out, say_triage(p));
    if p.leaves.len() > 0 {
        let mut line = "\n  Unmatched (".to_string();
        append_count(&mut line, p.leaves.len());
        line.append(")  → no rule matched; add a rule or leave in place");
        push_item(&mut out, line);
        push_all(&mut out, say_images(p.leaves.as_slice(), "     "));
    }
    if p.kept.len() > 0 {
        let mut line = "\n  Kept (".to_string();
        append_count(&mut line, p.kept.len());
        line.append(")  → already present in the check repo, left in place (informational)");
        push_item(&mut out, line);
    }
    assert(out.deep_view() =~= review_lines(p.deep_view()));
    out
}

/// The whole printed plan: summary, sections, leftovers.
pub open spec fn plan_lines(
    p: ResolvedView,
    copy: bool,
    verbose: bool,
    classes: Seq<(Seq<Seq<char>>, Seq<Seq<char>>)>,
) -> Seq<Seq<char>> {
    seq!["================ Reorg plan ================"@] + summary_lines(p, copy)
        + group_sections(p, copy, verbose, classes) + review_lines(p)
}

/// The whole printed plan.
pub fn print_plan(
    p: &ResolvedPlan,
    copy: bool,
    verbose: bool,
    classes: &OrderedMap<String, Vec<String>>,
) -> (out: Vec<String>)
    requires
        forall|i: int| 0 <= i < p.mismatched@.len() ==> showable(#[trigger] p.mismatched@[i].deep_view()),
    ensures
        out.deep_view() == plan_lines(p.deep_view(), copy, verbose, classes@),
{
    let mut out: Vec<String> = Vec::new();
    say(&mut out, "================ Reorg plan ================");
    push_all(&mut out, print_summary(p, copy));
    push_all(&mut out, print_group_sections(p, copy, verbose, classes));
    push_all(&mut out, print_review_only(p));
    assert(out.deep_view() =~= plan_lines(p.deep_view(), copy, verbose, classes@));
    out
}

/// Moves keyed by destination.
pub open spec fn dest_items(moves: Seq<PlannedMoveView>) -> Seq<
    (Seq<Seq<char>>, PlannedMoveView),
> {
    moves.map_values(|m: PlannedMoveView| (key1(m.dest), m))
}

/// The line of one move.
pub open spec fn move_line() -> spec_fn(PlannedMoveView) -> Seq<char> {
    |m: PlannedMoveView| "     "@ + m.source_repo + "/"@ + m.image + ":"@ + m.tag
}

/// The moves to one destination.
pub open spec fn dest_moves() -> spec_fn((Seq<Seq<char>>, Seq<PlannedMoveView>)) -> Seq<Seq<char>> {
    |g: (Seq<Seq<char>>, Seq<PlannedMoveView>)|
        seq!["\n→ "@ + g.0[0] + "  ("@ + decimal(g.1.len()) + " tag(s)):"@] + sorted_texts(
            g.1.map_values(move_line()),
        )
}

/// Every move, by destination.
pub open spec fn verbose_lines(p: ResolvedView) -> Seq<Seq<char>> {
    if p.moves.len() == 0 {
        Seq::empty()
    } else {
        seq!["\n================ Detail (--verbose) — every automatic move ================"@]
            + spread(group_by(dest_items(p.moves)), dest_moves())
    }
}

/// Group moves by destination.
fn by_dest(moves: &[PlannedMove]) -> (r: OrderedMap<String, Vec<PlannedMove>>)
    ensures
        r@ == group_by(dest_items(moves.deep_view())),
{
    let ghost all = moves.deep_view();
    let mut items: Vec<(String, PlannedMove)> = Vec::new();
    let mut i: usize = 0;
    assert(entry_views(items@) =~= dest_items(all.take(0)));
    while i < moves.len()
        invariant
            all == moves.deep_view(),
            i <= moves@.len(),
            entry_views(items@) == dest_items(all.take(i as int)),
        decreases moves@.len() - i,
    {
        let m = &moves[i];
        let ghost before = items@;
        items.push((m.dest.clone(), m.clone()));
        proof {
            assert(all[i as int] == m.deep_view());
            assert(entry_views(items@) =~= entry_views(before).push(
                (key1(m.dest@), m.deep_view()),
            ));
            assert(dest_items(all.take(i + 1)) =~= dest_items(all.take(i as int)).push(
                (key1(m.dest@), m.deep_view()),
            ));
        }
        i = i + 1;
    }
    proof {
        lemma_take_all(all);
    }
    group(items)
}

/// The full per-tag list of the moves, grouped by destination.
pub fn print_verbose_moves(p: &ResolvedPlan) -> (out: Vec<String>)
    ensures
        out.deep_view() == verbose_lines(p.deep_view()),
{
    let mut out: Vec<String> = Vec::new();
    if p.moves.len() == 0 {
        assert(out.deep_view() =~= verbose_lines(p.deep_view()));
        return out;
    }
    say(
        &mut out,
        "\n================ Detail (--verbose) — every automatic move ================",
    );
    let ghost base = out.deep_view();
    let groups = by_dest(p.moves.as_slice());
    let ghost gs = groups@;
    let mut i: usize = 0;
    assert(out.deep_view() =~= base + spread(gs.take(0), dest_moves()));
    while i < groups.len()
        invariant
            gs == groups@,
            i <= gs.len(),
            out.deep_view() == base + spread(gs.take(i as int), dest_moves()),
        decreases gs.len() - i,
    {
        let dest = groups.key_at(i);
        let ms = groups.value_at(i);
        proof {
            lemma_spread_step(gs, dest_moves(), i as int);
            assert(gs[i as int].0 == key1(dest@));
            assert(gs[i as int].0[0] == dest@);
        }
        let mut head = "\n→ ".to_string();
        head.append(dest.as_str());
        head.append("  (");
        append_count(&mut head, ms.len());
        head.append(" tag(s)):");
        push_item(&mut out, head);
        let ghost mv = ms.deep_view();
        let mut lines: Vec<String> = Vec::new();
        let mut k: usize = 0;
        assert(lines.deep_view() =~= mv.take(0).map_values(move_line()));
        while k < ms.len()
            invariant
                mv == ms.deep_view(),
                k <= ms@.len(),
                lines.deep_view() == mv.take(k as int).map_values(move_line()),
            decreases ms@.len() - k,
        {
            let m = &ms[k];
            proof {
                lemma_map_step(mv, move_line(), k as int);
                assert(mv[k as int] == m.deep_view());
            }
            let mut line = "     ".to_string();
            line.append(m.source_repo.as_str());
            line.append("/");
            line.append(m.image.as_str());
            line.append(":");
            line.append(m.tag.as_str());
            push_item(&mut lines, line);
            k = k + 1;
        }
        proof {
            lemma_take_all(mv);
        }
        push_all(&mut out, sort_list(lines));
        assert(out.deep_view() =~= base + spread(gs.take(i + 1), dest_moves()));
        i = i + 1;
    }
    proof {
        lemma_take_all(gs);
    }
    out
}

/// The point in time that an RFC 3339 timestamp names, in seconds and nanoseconds
/// after the Unix epoch; `None` where the text is no such timestamp.
pub uninterp spec fn instant_of(stamp: Seq<char>) -> Option<(i64, u32)>;

/// Calls `chrono::DateTime::parse_from_rfc3339` and takes the seconds and the
/// nanoseconds of its result. Both depend on the text alone.
#[verifier::external_body]
fn parse_instant(stamp: &str) -> (r: Option<(i64, u32)>)
    ensures
        r == instant_of(stamp@),
{
    let at = chrono::DateTime::parse_from_rfc3339(stamp).ok()?;
    Some((at.timestamp(), at.timestamp_subsec_nanos()))
}

/// Tells the moves whose last pull is older than the window. A pull whose time is
/// not known is not.
pub open spec fn is_stale(
    atimes: Seq<(Seq<Seq<char>>, Seq<char>)>,
    now: Timestamp,
    window: u32,
) -> spec_fn(PlannedMoveView) -> bool {
    |m: PlannedMoveView|
        lookup(atimes, key2(m.image, m.tag)) matches Some(at) && instant_of(at) matches Some(t)
            && whole_days(Timestamp { secs: t.0, nanos: t.1 }, now) > window
}

/// The cleanup policy of a repository: the greatest age by creation and by last
/// pull, in days.
pub open spec fn policy_of(
    cleanup: Seq<(Seq<Seq<char>>, (Option<u32>, Option<u32>))>,
    dest: Seq<Seq<char>>,
) -> (Option<u32>, Option<u32>) {
    match lookup(cleanup, dest) {
        Some(p) => p,
        None => (None, None),
    }
}

/// The policy in words.
pub open spec fn policy_parts(policy: (Option<u32>, Option<u32>)) -> Seq<Seq<char>> {
    (match policy.0 {
        Some(a) => seq!["max_age="@ + decimal(a as nat) + "d (creation)"@],
        None => Seq::empty(),
    }) + (match policy.1 {
        Some(u) => seq!["max_unaccessed="@ + decimal(u as nat) + "d (last pull)"@],
        None => Seq::empty(),
    })
}

/// The line of one destination.
pub open spec fn retention_line(
    cleanup: Seq<(Seq<Seq<char>>, (Option<u32>, Option<u32>))>,
    atimes: Seq<(Seq<Seq<char>>, Seq<char>)>,
    now: Timestamp,
) -> spec_fn((Seq<Seq<char>>, Seq<PlannedMoveView>)) -> Seq<char> {
    |g: (Seq<Seq<char>>, Seq<PlannedMoveView>)|
        {
            let policy = policy_of(cleanup, g.0);
            if policy.0 is None && policy.1 is None {
                "  "@ + g.0[0] + ": no cleanup policy — "@ + decimal(g.1.len())
                    + " move(s) are permanent ✓"@
            } else {
                "  ⚠ "@ + g.0[0] + ": "@ + joined(policy_parts(policy), ", "@) + (match policy.1 {
                    Some(u) => " — "@ + decimal(g.1.len()) + " move(s); "@ + decimal(
                        g.1.filter(is_stale(atimes, now, u)).len(),
                    ) + " last pulled older than "@ + decimal(u as nat)
                        + "d → likely to expire after the move"@,
                    None => " — "@ + decimal(g.1.len())
                        + " move(s); expiry is by creation age (not checked here) — review"@,
                })
            }
        }
}

/// Whether the moved tags survive at their destination.
pub open spec fn retention_lines(
    p: ResolvedView,
    cleanup: Seq<(Seq<Seq<char>>, (Option<u32>, Option<u32>))>,
    atimes: Seq<(Seq<Seq<char>>, Seq<char>)>,
    now: Timestamp,
) -> Seq<Seq<char>> {
    if p.moves.len() == 0 {
        Seq::empty()
    } else {
        seq![
            "\n================ Destination retention — will the moved tags survive? ================"@,
        ] + group_by(dest_items(p.moves)).map_values(retention_line(cleanup, atimes, now))
    }
}

/// Whether a last pull that many days ago lies within the window. One whose age is
/// not known does not.
pub fn pulled_within(days: Option<i64>, window: u32) -> (r: bool)
    ensures
        r == (days matches Some(d) && d <= window as i64),
{
    match days {
        Some(d) => d <= window as i64,
        None => false,
    }
}

/// Whether a last pull that many days ago is older than the window. One whose age
/// is not known is not.
pub fn pulled_before(days: Option<i64>, window: u32) -> (r: bool)
    ensures
        r == (days matches Some(d) && d > window as i64),
{
    days.is_some() && !pulled_within(days, window)
}

/// Whether the last pull of a move's tag is older than the window.
fn stale(
    atimes: &OrderedMap<(String, String), String>,
    m: &PlannedMove,
    now: Timestamp,
    window: u32,
) -> (r: bool)
    ensures
        r == is_stale(atimes@, now, window)(m.deep_view()),
{
    let key = (m.image.clone(), m.tag.clone());
    match atimes.get(&key) {
        Some(at) => {
            let days: Option<i64> = match parse_instant(at.as_str()) {
                Some((secs, nanos)) => Some(days_between(Timestamp { secs, nanos }, now)),
                None => None,
            };
            pulled_before(days, window)
        },
        None => false,
    }
}

/// The number of moves whose last pull is older than the window.
pub fn stale_count(
    moves: &[PlannedMove],
    atimes: &OrderedMap<(String, String), String>,
    now: Timestamp,
    window: u32,
) -> (r: usize)
    ensures
        r == moves.deep_view().filter(is_stale(atimes@, now, window)).len(),
{
    let ghost all = moves.deep_view();
    let ghost pred = is_stale(atimes@, now, window);
    let mut n: usize = 0;
    let mut i: usize = 0;
    proof {
        reveal(Seq::filter);
    }
    assert(all.take(0).filter(pred).len() == 0);
    while i < moves.len()
        invariant
            all == moves.deep_view(),
            pred == is_stale(atimes@, now, window),
            i <= moves@.len(),
            n <= i,
            n == all.take(i as int).filter(pred).len(),
        decreases moves@.len() - i,
    {
        proof {
            lemma_filter_step(all, pred, i as int);
            assert(all[i as int] == moves@[i as int].deep_view());
        }
        if stale(atimes, &moves[i], now, window) {
            n = n + 1;
        }
        i = i + 1;
    }
    proof {
        lemma_take_all(all);
    }
    n
}

/// The policy in words.
fn say_policy(policy: (Option<u32>, Option<u32>)) -> (r: Vec<String>)
    ensures
        r.deep_view() == policy_parts(policy),
{
    let mut out: Vec<String> = Vec::new();
    if let Some(a) = policy.0 {
        let mut s = "max_age=".to_string();
        let n = number_text(a as u64);
        s.append(n.as_str());
        s.append("d (creation)");
        push_item(&mut out, s);
    }
    if let Some(u) = policy.1 {
        let mut s = "max_unaccessed=".to_string();
        let n = number_text(u as u64);
        s.append(n.as_str());
        s.append("d (last pull)");
        push_item(&mut out, s);
    }
    assert(out.deep_view() =~= policy_parts(policy));
    out
}

/// The line of one destination.
fn say_retention(
    dest: &str,
    moves: &[PlannedMove],
    policy: (Option<u32>, Option<u32>),
    atimes: &OrderedMap<(String, String), String>,
    now: Timestamp,
) -> (line: String)
    ensures
        line@ == (if policy.0 is None && policy.1 is None {
            "  "@ + dest@ + ": no cleanup policy — "@ + decimal(moves.deep_view().len())
                + " move(s) are permanent ✓"@
        } else {
            "  ⚠ "@ + dest@ + ": "@ + joined(policy_parts(policy), ", "@) + (match policy.1 {
                Some(u) => " — "@ + decimal(moves.deep_view().len()) + " move(s); "@ + decimal(
                    moves.deep_view().filter(is_stale(atimes@, now, u)).len(),
                ) + " last pulled older than "@ + decimal(u as nat)
                    + "d → likely to expire after the move"@,
                None => " — "@ + decimal(moves.deep_view().len())
                    + " move(s); expiry is by creation age (not checked here) — review"@,
            })
        }),
{
    if policy.0.is_none() && policy.1.is_none() {
        let mut line = "  ".to_string();
        line.append(dest);
        line.append(": no cleanup policy — ");
        append_count(&mut line, moves.len());
        line.append(" move(s) are permanent ✓");
        return line;
    }
    let parts = say_policy(policy);
    let words = join(parts.as_slice(), ", ");
    let mut line = "  ⚠ ".to_string();
    line.append(dest);
    line.append(": ");
    line.append(words.as_str());
    let mut note = " — ".to_string();
    append_count(&mut note, moves.len());
    match policy.1 {
        Some(u) => {
            note.append(" move(s); ");
            append_count(&mut note, stale_count(moves, atimes, now, u));
            note.append(" last pulled older than ");
            let n = number_text(u as u64);
            note.append(n.as_str());
            note.append("d → likely to expire after the move");
        },
        None => {
            note.append(" move(s); expiry is by creation age (not checked here) — review");
        },
    }
    line.append(note.as_str());
    line
}

/// Warn where a destination has a cleanup policy that would expire the moved
/// tags. `cleanup` holds each repository's policy, `atimes` the time of the last
/// pull by `(image, tag)`, as far as it is known. Only tags whose last pull is
/// older than the window are counted.
pub fn print_destination_retention(
    p: &ResolvedPlan,
    cleanup: &OrderedMap<String, (Option<u32>, Option<u32>)>,
    atimes: &OrderedMap<(String, String), String>,
    now: Timestamp,
) -> (out: Vec<String>)
    ensures
        out.deep_view() == retention_lines(p.deep_view(), cleanup@, atimes@, now),
{
    let mut out: Vec<String> = Vec::new();
    if p.moves.len() == 0 {
        assert(out.deep_view() =~= retention_lines(p.deep_view(), cleanup@, atimes@, now));
        return out;
    }
    say(
        &mut out,
        "\n================ Destination retention — will the moved tags survive? ================",
    );
    let ghost base = out.deep_view();
    let groups = by_dest(p.moves.as_slice());
    let ghost gs = groups@;
    let ghost f = retention_line(cleanup@, atimes@, now);
    let mut i: usize = 0;
    assert(out.deep_view() =~= base + gs.take(0).map_values(f));
    while i < groups.len()
        invariant
            f == retention_line(cleanup@, atimes@, now),
            gs == groups@,
            i <= gs.len(),
            out.deep_view() == base + gs.take(i as int).map_values(f),
        decreases gs.len() - i,
    {
        let dest = groups.key_at(i);
        let moves = groups.value_at(i);
        proof {
            lemma_map_step(gs, f, i as int);
            assert(gs[i as int].0 == key1(dest@));
            assert(gs[i as int].0[0] == dest@);
        }
        let policy = match cleanup.get(dest) {
            Some(p) => *p,
            None => (None, None),
        };
        push_item(
            &mut out,
            say_retention(dest.as_str(), moves.as_slice(), policy, atimes, now),
        );
        assert(out.deep_view() =~= base + gs.take(i + 1).map_values(f));
        i = i + 1;
    }
    proof {
        lemma_take_all(gs);
    }
    out
}

} // verus!
