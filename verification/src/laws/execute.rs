//! What applying a docker reorganisation plan promises.
use crate::laws::manifest::lemma_sum_contains;
use crate::reorg::config::selects;
use crate::reorg::execute::{
    cache_steps, deletable_tag, delete_step, guarded_delete, lemma_script_ops, move_step,
    move_steps, op_verb, performs, run_result, script, selected_delete, source_delete_steps,
    source_deletes, StagingKind, StagingOpView, StepView, Tally,
};
use crate::reorg::plan::{PlannedMoveView, TagRefView};
use crate::reorg::report::full_name;
use crate::reorg::resolve::ResolvedView;
use crate::seqs::lemma_filter_map_contains;
use crate::text::{decimal, has_prefix};
use vstd::prelude::*;

verus! {

/// A selection has a group, by its name or by "all".
pub open spec fn is_selected(apply: Option<Seq<Seq<char>>>, group: Seq<char>) -> bool {
    apply is Some && (apply->Some_0.contains("all"@) || apply->Some_0.contains(group))
}

/// Where the moves are selected every planned move is made, from its place to its
/// destination; it is a copy where copies are asked for.
pub proof fn law_selected_moves_are_made(
    apply: Option<Seq<Seq<char>>>,
    copy: bool,
    p: ResolvedView,
    guard: Seq<Seq<char>>,
    m: PlannedMoveView,
)
    requires
        is_selected(apply, "move"@),
        p.moves.contains(m),
    ensures
        performs(
            script(apply, copy, p, guard),
            StagingOpView {
                kind: if copy {
                    StagingKind::Copy
                } else {
                    StagingKind::Move
                },
                tag: TagRefView { source_repo: m.source_repo, image: m.image, tag: m.tag },
                dest: Some(m.dest),
            },
        ),
{
    let i = choose|i: int| 0 <= i < p.moves.len() && p.moves[i] == m;
    let steps = move_steps(apply, copy, p);
    assert(steps[i + 1] == move_step(copy)(m));
    assert(script(apply, copy, p, guard)[i + 2] == steps[i + 1]);
}

/// A tag is up for deletion in a selected group: "superseded" and "redundant" by the
/// reason of the delete, "mismatch" where the mismatch may be deleted, "retired" for
/// the retired prefixes.
pub open spec fn is_up_for_deletion(
    apply: Option<Seq<Seq<char>>>,
    p: ResolvedView,
    t: TagRefView,
) -> bool {
    ||| exists|i: int|
        0 <= i < p.deletes.len() && (#[trigger] p.deletes[i]).tag == t && is_selected(
            apply,
            if has_prefix(p.deletes[i].reason, "superseded"@) {
                "superseded"@
            } else {
                "redundant"@
            },
        )
    ||| is_selected(apply, "mismatch"@) && exists|i: int|
        0 <= i < p.mismatched.len() && (#[trigger] p.mismatched[i]).tag == t
            && p.mismatched[i].deletable()
    ||| is_selected(apply, "retired"@) && p.prefix_deletes.contains(t)
}

/// The tags to delete at the sources are those that are up for deletion.
proof fn lemma_source_deletes(apply: Option<Seq<Seq<char>>>, p: ResolvedView, t: TagRefView)
    ensures
        source_deletes(apply, p).contains(t) <==> is_up_for_deletion(apply, p, t),
{
    let f = selected_delete(apply);
    let a = p.deletes.filter_map(f);
    let b = if selects(apply, "mismatch"@) {
        p.mismatched.filter_map(deletable_tag())
    } else {
        Seq::empty()
    };
    let c = if selects(apply, "retired"@) {
        p.prefix_deletes
    } else {
        Seq::empty()
    };
    assert(source_deletes(apply, p) == a + b + c);
    lemma_sum_contains(a, b, t);
    lemma_sum_contains(a + b, c, t);
    lemma_filter_map_contains(p.deletes, f, t);
    lemma_filter_map_contains(p.mismatched, deletable_tag(), t);
    if a.contains(t) {
        let j = choose|j: int| 0 <= j < p.deletes.len() && #[trigger] f(p.deletes[j]) == Some(t);
        assert(p.deletes[j].tag == t);
    }
    if exists|i: int|
        0 <= i < p.deletes.len() && (#[trigger] p.deletes[i]).tag == t && is_selected(
            apply,
            if has_prefix(p.deletes[i].reason, "superseded"@) {
                "superseded"@
            } else {
                "redundant"@
            },
        ) {
        let i = choose|i: int|
            0 <= i < p.deletes.len() && (#[trigger] p.deletes[i]).tag == t && is_selected(
                apply,
                if has_prefix(p.deletes[i].reason, "superseded"@) {
                    "superseded"@
                } else {
                    "redundant"@
                },
            );
        assert(f(p.deletes[i]) == Some(t));
    }
    if exists|i: int|
        0 <= i < p.mismatched.len() && (#[trigger] p.mismatched[i]).tag == t
            && p.mismatched[i].deletable() {
        let i = choose|i: int|
            0 <= i < p.mismatched.len() && (#[trigger] p.mismatched[i]).tag == t
                && p.mismatched[i].deletable();
        assert(deletable_tag()(p.mismatched[i]) == Some(t));
    }
    if b.contains(t) {
        let j = choose|j: int|
            0 <= j < p.mismatched.len() && #[trigger] deletable_tag()(p.mismatched[j]) == Some(t);
        assert(p.mismatched[j].tag == t);
    }
}

/// A run that does not copy deletes exactly what is up for deletion in a selected
/// group and does not stand in a protected repository, and, where "non-released" is
/// selected and could be determined, the tags that the upstream does not have.
pub proof fn law_run_deletes_what_is_selected(
    apply: Option<Seq<Seq<char>>>,
    p: ResolvedView,
    guard: Seq<Seq<char>>,
    t: TagRefView,
)
    ensures
        performs(
            script(apply, false, p, guard),
            StagingOpView { kind: StagingKind::Delete, tag: t, dest: None },
        ) <==> (is_up_for_deletion(apply, p, t) && !guard.contains(t.source_repo)) || (is_selected(
            apply,
            "non-released"@,
        ) && p.non_released_note is None && p.non_released.contains(t)),
{
    let op = StagingOpView { kind: StagingKind::Delete, tag: t, dest: None };
    let s = script(apply, false, p, guard);
    let ms = move_steps(apply, false, p);
    let sd = source_delete_steps(apply, p, guard);
    let cs = cache_steps(apply, p);
    lemma_source_deletes(apply, p, t);
    if performs(s, op) {
        lemma_script_ops(apply, false, p, guard, op);
    }
    if source_deletes(apply, p).contains(t) && !guard.contains(t.source_repo) {
        let tags = source_deletes(apply, p);
        let i = choose|i: int| 0 <= i < tags.len() && tags[i] == t;
        assert(sd[i + 1] == guarded_delete(guard)(t));
        assert(s[1 + ms.len() + i + 1] == sd[i + 1]);
    }
    if selects(apply, "non-released"@) && p.non_released_note is None && p.non_released.contains(
        t,
    ) {
        let i = choose|i: int| 0 <= i < p.non_released.len() && p.non_released[i] == t;
        assert(cs[i + 1] == delete_step()(t));
        assert(s[1 + ms.len() + sd.len() + i + 1] == cs[i + 1]);
    }
}

/// A delete in a protected repository is refused with a warning that names the tag.
pub proof fn law_refused_delete_is_told(
    apply: Option<Seq<Seq<char>>>,
    p: ResolvedView,
    guard: Seq<Seq<char>>,
    t: TagRefView,
)
    requires
        is_up_for_deletion(apply, p, t),
        guard.contains(t.source_repo),
    ensures
        script(apply, false, p, guard).contains(
            StepView::Warn(
                "  delete REFUSED (cache/insight repo never deleted): "@ + t.source_repo + "/"@
                    + t.image + ":"@ + t.tag,
            ),
        ),
{
    lemma_source_deletes(apply, p, t);
    let tags = source_deletes(apply, p);
    let i = choose|i: int| 0 <= i < tags.len() && tags[i] == t;
    let ms = move_steps(apply, false, p);
    let sd = source_delete_steps(apply, p, guard);
    assert(sd[i + 1] == guarded_delete(guard)(t));
    assert(script(apply, false, p, guard)[1 + ms.len() + i + 1] == sd[i + 1]);
    let head = "  delete REFUSED (cache/insight repo never deleted): "@;
    assert(head + full_name(t) =~= head + t.source_repo + "/"@ + t.image + ":"@ + t.tag);
}

/// Nothing is moved after something was deleted.
pub proof fn law_moves_come_before_deletes(
    apply: Option<Seq<Seq<char>>>,
    copy: bool,
    p: ResolvedView,
    guard: Seq<Seq<char>>,
    i: int,
    j: int,
)
    requires
        0 <= i < script(apply, copy, p, guard).len(),
        0 <= j < script(apply, copy, p, guard).len(),
        script(apply, copy, p, guard)[i] matches StepView::Do(op) && op.kind != StagingKind::Delete,
        script(apply, copy, p, guard)[j] matches StepView::Do(op) && op.kind == StagingKind::Delete,
    ensures
        i < j,
{
    let s = script(apply, copy, p, guard);
    let ms = move_steps(apply, copy, p);
    let sd = source_delete_steps(apply, p, guard);
    let cs = cache_steps(apply, p);
    if 1 <= j && j < 1 + ms.len() {
        assert(s[j] == ms[j - 1]);
    }
    if i >= 1 + ms.len() && !copy {
        let k = i - 1 - ms.len();
        if k < sd.len() {
            assert(s[i] == sd[k]);
            if k > 0 {
                assert(sd[k] == guarded_delete(guard)(source_deletes(apply, p)[k - 1]));
            }
        } else {
            assert(s[i] == cs[k - sd.len()]);
            if k - sd.len() > 0 {
                assert(cs[k - sd.len()] == delete_step()(p.non_released[k - sd.len() - 1]));
            }
        }
    }
}

/// A run fails exactly where an operation failed.
pub proof fn law_run_fails_with_its_operations(tally: Tally, r: Result<(), String>)
    requires
        call_ensures(run_result, (&tally,), r),
    ensures
        tally.failed == 0 ==> r is Ok,
        tally.failed > 0 ==> r is Err,
{
}

/// What was done is told by its verb and tag; a failure with its reason.
pub proof fn law_operations_are_told_by_their_verb()
    ensures
        op_verb(StagingKind::Copy) == "copy"@,
        op_verb(StagingKind::Move) == "move"@,
        op_verb(StagingKind::Delete) == "delete"@,
{
}

/// Moves and copies are announced with their number.
pub proof fn law_moves_are_announced(
    apply: Option<Seq<Seq<char>>>,
    p: ResolvedView,
    guard: Seq<Seq<char>>,
)
    requires
        is_selected(apply, "move"@),
    ensures
        script(apply, true, p, guard).contains(
            StepView::Say("\n["@ + "copy"@ + "] "@ + decimal(p.moves.len()) + " tag(s)..."@),
        ),
        script(apply, false, p, guard).contains(
            StepView::Say("\n["@ + "move"@ + "] "@ + decimal(p.moves.len()) + " tag(s)..."@),
        ),
{
    assert(script(apply, true, p, guard)[1] == move_steps(apply, true, p)[0]);
    assert(script(apply, false, p, guard)[1] == move_steps(apply, false, p)[0]);
}

} // verus!
