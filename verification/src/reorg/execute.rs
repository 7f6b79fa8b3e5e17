//! What an applied run does, step by step: the messages it prints and the
//! staging operations it asks for, in order.
use crate::ordered::{key1, lemma_sorted_keys, lemma_text_keys, sorted_keys, text_keys, KeySet};
use crate::reorg::compile::CompiledGroup;
use crate::reorg::config::{
    delete_group, group_of, selects, GROUP_MISMATCH, GROUP_MOVE, GROUP_NON_RELEASED, GROUP_RETIRED,
    ReorgConfig,
};
use crate::reorg::evidence::MismatchInfoView;
use crate::reorg::plan::{DeleteItemView, PlannedMoveView, TagRef, TagRefView};
use crate::reorg::report::{append_count, append_name, full_name};
use crate::reorg::resolve::{ResolvedPlan, ResolvedView};
use crate::reorg::upstream::{protected, protected_repos};
use crate::seqs::{
    lemma_filter_map_contains, lemma_filter_map_step, lemma_map_step, lemma_take_all,
    lemma_take_push, push_all, push_item,
};
use crate::text::{count_text, decimal, join, joined};
use vstd::prelude::*;

verus! {

/// The kind of a staging operation.
#[derive(Debug, Clone, Copy, PartialEq, Eq, Structural)]
pub enum StagingKind {
    Copy,
    Move,
    Delete,
}

/// One request to the depot. A deletion has no destination.
#[derive(Debug)]
pub struct StagingOp {
    pub kind: StagingKind,
    pub tag: TagRef,
    pub dest: Option<String>,
}

/// The contents of a [`StagingOp`].
#[verifier::ext_equal]
pub struct StagingOpView {
    pub kind: StagingKind,
    pub tag: TagRefView,
    pub dest: Option<Seq<char>>,
}

impl DeepView for StagingOp {
    type V = StagingOpView;

    open spec fn deep_view(&self) -> StagingOpView {
        StagingOpView {
            kind: self.kind,
            tag: self.tag.deep_view(),
            dest: self.dest.deep_view(),
        }
    }
}

/// One step of an applied run.
#[derive(Debug)]
pub enum Step {
    /// Print a message.
    Say(String),
    /// Print a warning.
    Warn(String),
    /// Perform an operation and report its outcome.
    Do(StagingOp),
}

/// The contents of a [`Step`].
pub enum StepView {
    Say(Seq<char>),
    Warn(Seq<char>),
    Do(StagingOpView),
}

impl DeepView for Step {
    type V = StepView;

    open spec fn deep_view(&self) -> StepView {
        match self {
            Step::Say(s) => StepView::Say(s@),
            Step::Warn(s) => StepView::Warn(s@),
            Step::Do(op) => StepView::Do(op.deep_view()),
        }
    }
}

/// The word for what happens to a move.
pub open spec fn move_verb(copy: bool) -> Seq<char> {
    if copy {
        "copy"@
    } else {
        "move"@
    }
}

/// The step of one move.
pub open spec fn move_step(copy: bool) -> spec_fn(PlannedMoveView) -> StepView {
    |m: PlannedMoveView|
        StepView::Do(
            StagingOpView {
                kind: if copy {
                    StagingKind::Copy
                } else {
                    StagingKind::Move
                },
                tag: TagRefView { source_repo: m.source_repo, image: m.image, tag: m.tag },
                dest: Some(m.dest),
            },
        )
}

/// The steps of the moves.
pub open spec fn move_steps(
    apply: Option<Seq<Seq<char>>>,
    copy: bool,
    p: ResolvedView,
) -> Seq<StepView> {
    if selects(apply, GROUP_MOVE@) {
        seq![
            StepView::Say(
                "\n["@ + move_verb(copy) + "] "@ + decimal(p.moves.len()) + " tag(s)..."@,
            ),
        ] + p.moves.map_values(move_step(copy))
    } else {
        Seq::empty()
    }
}

/// Takes the tag of a deletion whose group is selected.
pub open spec fn selected_delete(apply: Option<Seq<Seq<char>>>) -> spec_fn(
    DeleteItemView,
) -> Option<TagRefView> {
    |d: DeleteItemView|
        if selects(apply, group_of(d)) {
            Some(d.tag)
        } else {
            None
        }
}

/// Takes the tag of a mismatch that may be deleted.
pub open spec fn deletable_tag() -> spec_fn(MismatchInfoView) -> Option<TagRefView> {
    |m: MismatchInfoView|
        if m.deletable() {
            Some(m.tag)
        } else {
            None
        }
}

/// The source tags that the selected groups delete.
pub open spec fn source_deletes(apply: Option<Seq<Seq<char>>>, p: ResolvedView) -> Seq<TagRefView> {
    p.deletes.filter_map(selected_delete(apply)) + (if selects(apply, GROUP_MISMATCH@) {
        p.mismatched.filter_map(deletable_tag())
    } else {
        Seq::empty()
    }) + (if selects(apply, GROUP_RETIRED@) {
        p.prefix_deletes
    } else {
        Seq::empty()
    })
}

/// The step of a deletion, whatever repository it is in.
pub open spec fn delete_step() -> spec_fn(TagRefView) -> StepView {
    |t: TagRefView|
        StepView::Do(StagingOpView { kind: StagingKind::Delete, tag: t, dest: None })
}

/// The step of a source-side deletion: refused where the repository is
/// protected.
pub open spec fn guarded_delete(guard: Seq<Seq<char>>) -> spec_fn(TagRefView) -> StepView {
    |t: TagRefView|
        if guard.contains(t.source_repo) {
            StepView::Warn(
                "  delete REFUSED (cache/insight repo never deleted): "@ + full_name(t),
            )
        } else {
            delete_step()(t)
        }
}

/// The steps of the source-side deletions.
pub open spec fn source_delete_steps(
    apply: Option<Seq<Seq<char>>>,
    p: ResolvedView,
    guard: Seq<Seq<char>>,
) -> Seq<StepView> {
    let tags = source_deletes(apply, p);
    if tags.len() == 0 {
        Seq::empty()
    } else {
        seq![
            StepView::Say("\n[delete] "@ + decimal(tags.len()) + " tag(s) from source..."@),
        ] + tags.map_values(guarded_delete(guard))
    }
}

/// The steps of the cleanup of the local cache.
pub open spec fn cache_steps(apply: Option<Seq<Seq<char>>>, p: ResolvedView) -> Seq<StepView> {
    if !selects(apply, GROUP_NON_RELEASED@) {
        Seq::empty()
    } else {
        match p.non_released_note {
            Some(note) => seq![StepView::Warn("  [non-released] cannot run — "@ + note)],
            None => if p.non_released.len() == 0 {
                Seq::empty()
            } else {
                seq![
                    StepView::Say(
                        "\n[non-released] deleting "@ + decimal(p.non_released.len())
                            + " tag(s) from the local insight cache (absent upstream)..."@,
                    ),
                ] + p.non_released.map_values(delete_step())
            },
        }
    }
}

/// Everything that an applied run does.
pub open spec fn script(
    apply: Option<Seq<Seq<char>>>,
    copy: bool,
    p: ResolvedView,
    guard: Seq<Seq<char>>,
) -> Seq<StepView> {
    seq![
        StepView::Say(
            "\nApplying groups: "@ + (match apply {
                Some(sel) => joined(sel, ", "@),
                None => Seq::empty(),
            }) + " — no prompts..."@,
        ),
    ] + move_steps(apply, copy, p) + (if copy {
        seq![StepView::Say("\n--copy is non-destructive: skipping all delete groups."@)]
    } else {
        source_delete_steps(apply, p, guard) + cache_steps(apply, p)
    })
}

/// The steps of the moves.
fn plan_moves(cfg: &ReorgConfig, p: &ResolvedPlan) -> (out: Vec<Step>)
    ensures
        out.deep_view() == move_steps(cfg.apply.deep_view(), cfg.copy, p.deep_view()),
{
    let mut out: Vec<Step> = Vec::new();
    if cfg.wants(GROUP_MOVE) {
        let mut head = "\n[".to_string();
        if cfg.copy {
            head.append("copy");
        } else {
            head.append("move");
        }
        head.append("] ");
        append_count(&mut head, p.moves.len());
        head.append(" tag(s)...");
        push_item(&mut out, Step::Say(head));
        let ghost base = out.deep_view();
        let ghost ms = p.moves.deep_view();
        let ghost f = move_step(cfg.copy);
        let mut i: usize = 0;
        assert(out.deep_view() =~= base + ms.take(0).map_values(f));
        while i < p.moves.len()
            invariant
                ms == p.moves.deep_view(),
                f == move_step(cfg.copy),
                i <= p.moves@.len(),
                out.deep_view() == base + ms.take(i as int).map_values(f),
            decreases p.moves@.len() - i,
        {
            let m = &p.moves[i];
            proof {
                lemma_map_step(ms, f, i as int);
                assert(ms[i as int] == m.deep_view());
            }
            let kind = if cfg.copy {
                StagingKind::Copy
            } else {
                StagingKind::Move
            };
            let op = StagingOp {
                kind,
                tag: TagRef {
                    source_repo: m.source_repo.clone(),
                    image: m.image.clone(),
                    tag: m.tag.clone(),
                },
                dest: Some(m.dest.clone()),
            };
            push_item(&mut out, Step::Do(op));
            assert(out.deep_view() =~= base + ms.take(i + 1).map_values(f));
            i = i + 1;
        }
        proof {
            lemma_take_all(ms);
        }
    }
    assert(out.deep_view() =~= move_steps(cfg.apply.deep_view(), cfg.copy, p.deep_view()));
    out
}

/// Copy a list of tags.
fn copy_tags(tags: &[TagRef]) -> (r: Vec<TagRef>)
    ensures
        r.deep_view() == tags.deep_view(),
{
    let mut out: Vec<TagRef> = Vec::new();
    let ghost all = tags.deep_view();
    let mut i: usize = 0;
    assert(out.deep_view() =~= all.take(0));
    while i < tags.len()
        invariant
            all == tags.deep_view(),
            i <= tags@.len(),
            out.deep_view() == all.take(i as int),
        decreases tags@.len() - i,
    {
        proof {
            lemma_take_push(all, i as int);
        }
        push_item(&mut out, tags[i].clone());
        i = i + 1;
    }
    proof {
        lemma_take_all(all);
    }
    out
}

/// The source tags that the selected groups delete.
fn gather_deletes(cfg: &ReorgConfig, p: &ResolvedPlan) -> (out: Vec<TagRef>)
    ensures
        out.deep_view() == source_deletes(cfg.apply.deep_view(), p.deep_view()),
{
    let mut out: Vec<TagRef> = Vec::new();
    let ghost ds = p.deletes.deep_view();
    let ghost f = selected_delete(cfg.apply.deep_view());
    let mut i: usize = 0;
    assert(out.deep_view() =~= ds.take(0).filter_map(f));
    while i < p.deletes.len()
        invariant
            ds == p.deletes.deep_view(),
            f == selected_delete(cfg.apply.deep_view()),
            i <= p.deletes@.len(),
            out.deep_view() == ds.take(i as int).filter_map(f),
        decreases p.deletes@.len() - i,
    {
        let d = &p.deletes[i];
        proof {
            lemma_filter_map_step(ds, f, i as int);
            assert(ds[i as int] == d.deep_view());
        }
        if cfg.wants(delete_group(d)) {
            push_item(&mut out, d.tag.clone());
        }
        i = i + 1;
    }
    proof {
        lemma_take_all(ds);
    }
    let ghost base = out.deep_view();
    if cfg.wants(GROUP_MISMATCH) {
        let ghost ms = p.mismatched.deep_view();
        let ghost h = deletable_tag();
        let mut j: usize = 0;
        assert(out.deep_view() =~= base + ms.take(0).filter_map(h));
        while j < p.mismatched.len()
            invariant
                ms == p.mismatched.deep_view(),
                h == deletable_tag(),
                j <= p.mismatched@.len(),
                out.deep_view() == base + ms.take(j as int).filter_map(h),
            decreases p.mismatched@.len() - j,
        {
            let m = &p.mismatched[j];
            proof {
                lemma_filter_map_step(ms, h, j as int);
                assert(ms[j as int] == m.deep_view());
            }
            if m.recommends_delete() {
                push_item(&mut out, m.tag.clone());
            }
            assert(out.deep_view() =~= base + ms.take(j + 1).filter_map(h));
            j = j + 1;
        }
        proof {
            lemma_take_all(ms);
        }
    }
    if cfg.wants(GROUP_RETIRED) {
        push_all(&mut out, copy_tags(p.prefix_deletes.as_slice()));
    }
    assert(out.deep_view() =~= source_deletes(cfg.apply.deep_view(), p.deep_view()));
    out
}

/// A deletion.
fn deletion(t: &TagRef) -> (r: Step)
    ensures
        r.deep_view() == delete_step()(t.deep_view()),
{
    Step::Do(StagingOp { kind: StagingKind::Delete, tag: t.clone(), dest: None })
}

/// The steps of the source-side deletions. `guard` holds the protected
/// repositories.
fn plan_deletes(
    cfg: &ReorgConfig,
    p: &ResolvedPlan,
    guard: &KeySet<String>,
    Ghost(names): Ghost<Seq<Seq<char>>>,
) -> (out: Vec<Step>)
    requires
        guard@ == sorted_keys(text_keys(names)),
    ensures
        out.deep_view() == source_delete_steps(cfg.apply.deep_view(), p.deep_view(), names),
{
    let tags = gather_deletes(cfg, p);
    let mut out: Vec<Step> = Vec::new();
    if tags.len() > 0 {
        let mut head = "\n[delete] ".to_string();
        append_count(&mut head, tags.len());
        head.append(" tag(s) from source...");
        push_item(&mut out, Step::Say(head));
        let ghost base = out.deep_view();
        let ghost ts = tags.deep_view();
        let ghost f = guarded_delete(names);
        let mut i: usize = 0;
        assert(out.deep_view() =~= base + ts.take(0).map_values(f));
        while i < tags.len()
            invariant
                guard@ == sorted_keys(text_keys(names)),
                ts == tags.deep_view(),
                f == guarded_delete(names),
                i <= tags@.len(),
                out.deep_view() == base + ts.take(i as int).map_values(f),
            decreases tags@.len() - i,
        {
            let t = &tags[i];
            proof {
                lemma_map_step(ts, f, i as int);
                assert(ts[i as int] == t.deep_view());
                lemma_sorted_keys(text_keys(names));
                lemma_text_keys(names, t.source_repo@);
                assert(sorted_keys(text_keys(names)).contains(key1(t.source_repo@))
                    <==> text_keys(names).contains(key1(t.source_repo@)));
            }
            if guard.contains(&t.source_repo) {
                let mut s = "  delete REFUSED (cache/insight repo never deleted): ".to_string();
                append_name(&mut s, t);
                push_item(&mut out, Step::Warn(s));
            } else {
                push_item(&mut out, deletion(t));
            }
            assert(out.deep_view() =~= base + ts.take(i + 1).map_values(f));
            i = i + 1;
        }
        proof {
            lemma_take_all(ts);
        }
    }
    assert(out.deep_view() =~= source_delete_steps(cfg.apply.deep_view(), p.deep_view(), names));
    out
}

/// The steps of the cleanup of the local cache. It targets the cache on purpose,
/// so the protection of repositories does not apply.
fn plan_cache(cfg: &ReorgConfig, p: &ResolvedPlan) -> (out: Vec<Step>)
    ensures
        out.deep_view() == cache_steps(cfg.apply.deep_view(), p.deep_view()),
{
    let mut out: Vec<Step> = Vec::new();
    if cfg.wants(GROUP_NON_RELEASED) {
        match &p.non_released_note {
            Some(note) => {
                let mut s = "  [non-released] cannot run — ".to_string();
                s.append(note.as_str());
                push_item(&mut out, Step::Warn(s));
            },
            None => {
                if p.non_released.len() > 0 {
                    let mut head = "\n[non-released] deleting ".to_string();
                    append_count(&mut head, p.non_released.len());
                    head.append(" tag(s) from the local insight cache (absent upstream)...");
                    push_item(&mut out, Step::Say(head));
                    let ghost base = out.deep_view();
                    let ghost ts = p.non_released.deep_view();
                    let ghost f = delete_step();
                    let mut i: usize = 0;
                    assert(out.deep_view() =~= base + ts.take(0).map_values(f));
                    while i < p.non_released.len()
                        invariant
                            ts == p.non_released.deep_view(),
                            f == delete_step(),
                            i <= p.non_released@.len(),
                            out.deep_view() == base + ts.take(i as int).map_values(f),
                        decreases p.non_released@.len() - i,
                    {
                        proof {
                            lemma_map_step(ts, f, i as int);
                        }
                        push_item(&mut out, deletion(&p.non_released[i]));
                        assert(out.deep_view() =~= base + ts.take(i + 1).map_values(f));
                        i = i + 1;
                    }
                    proof {
                        lemma_take_all(ts);
                    }
                }
            },
        }
    }
    assert(out.deep_view() =~= cache_steps(cfg.apply.deep_view(), p.deep_view()));
    out
}

/// Everything that an applied run does. The protected repositories are the check
/// and insight repositories of the groups and the cache repository.
pub fn execution_script(
    cfg: &ReorgConfig,
    p: &ResolvedPlan,
    groups: &[CompiledGroup],
    cache_repo: &Option<String>,
) -> (out: Vec<Step>)
    ensures
        out.deep_view() == script(
            cfg.apply.deep_view(),
            cfg.copy,
            p.deep_view(),
            protected(groups.deep_view(), cache_repo.deep_view()),
        ),
{
    let mut head = "\nApplying groups: ".to_string();
    if let Some(sel) = &cfg.apply {
        let list = join(sel.as_slice(), ", ");
        head.append(list.as_str());
    }
    proof {
        assert("\nApplying groups: "@ + Seq::<char>::empty() =~= "\nApplying groups: "@);
    }
    head.append(" — no prompts...");
    let mut out: Vec<Step> = Vec::new();
    push_item(&mut out, Step::Say(head));
    push_all(&mut out, plan_moves(cfg, p));
    if cfg.copy {
        push_item(
            &mut out,
            Step::Say("\n--copy is non-destructive: skipping all delete groups.".to_string()),
        );
    } else {
        let guard = protected_repos(groups, cache_repo);
        let ghost names = protected(groups.deep_view(), cache_repo.deep_view());
        push_all(&mut out, plan_deletes(cfg, p, &guard, Ghost(names)));
        push_all(&mut out, plan_cache(cfg, p));
    }
    assert(out.deep_view() =~= script(
        cfg.apply.deep_view(),
        cfg.copy,
        p.deep_view(),
        protected(groups.deep_view(), cache_repo.deep_view()),
    ));
    out
}

/// Whether a list of steps performs an operation.
pub open spec fn performs(steps: Seq<StepView>, op: StagingOpView) -> bool {
    steps.contains(StepView::Do(op))
}

/// What a script performs is a move or copy of a planned move, a guarded
/// source-side deletion, or a cleanup of the cache.
pub proof fn lemma_script_ops(
    apply: Option<Seq<Seq<char>>>,
    copy: bool,
    p: ResolvedView,
    guard: Seq<Seq<char>>,
    op: StagingOpView,
)
    requires
        performs(script(apply, copy, p, guard), op),
    ensures
        (selects(apply, GROUP_MOVE@) && exists|m: PlannedMoveView| #[trigger]
            p.moves.contains(m) && move_step(copy)(m) == StepView::Do(op)) || (!copy && op.kind
            == StagingKind::Delete && op.dest is None && source_deletes(apply, p).contains(op.tag)
            && !guard.contains(op.tag.source_repo)) || (!copy && op.kind == StagingKind::Delete
            && op.dest is None && selects(apply, GROUP_NON_RELEASED@) && p.non_released_note is None
            && p.non_released.contains(op.tag)),
{
    let s = script(apply, copy, p, guard);
    let i = choose|i: int| 0 <= i < s.len() && s[i] == StepView::Do(op);
    let ms = move_steps(apply, copy, p);
    let sd = source_delete_steps(apply, p, guard);
    let cs = cache_steps(apply, p);
    if 1 <= i && i < 1 + ms.len() {
        assert(s[i] == ms[i - 1]);
        let m = p.moves[i - 2];
        assert(p.moves.map_values(move_step(copy))[i - 2] == move_step(copy)(m));
        assert(p.moves.contains(m));
    } else if i >= 1 + ms.len() {
        assert(!copy);
        let j = i - 1 - ms.len();
        if j < sd.len() {
            assert(s[i] == sd[j]);
            let t = source_deletes(apply, p)[j - 1];
            assert(sd[j] == guarded_delete(guard)(t));
            assert(source_deletes(apply, p).contains(t));
        } else {
            assert(s[i] == cs[j - sd.len()]);
            let t = p.non_released[j - sd.len() - 1];
            assert(cs[j - sd.len()] == delete_step()(t));
            assert(p.non_released.contains(t));
        }
    }
}

/// With `--copy` nothing is deleted and nothing is moved away.
pub proof fn law_copy_is_not_destructive(
    apply: Option<Seq<Seq<char>>>,
    p: ResolvedView,
    guard: Seq<Seq<char>>,
    op: StagingOpView,
)
    requires
        performs(script(apply, true, p, guard), op),
    ensures
        op.kind == StagingKind::Copy,
{
    lemma_script_ops(apply, true, p, guard, op);
}

/// Without a selection nothing is performed.
pub proof fn law_dry_run_performs_nothing(
    copy: bool,
    p: ResolvedView,
    guard: Seq<Seq<char>>,
    op: StagingOpView,
)
    ensures
        !performs(script(None, copy, p, guard), op),
{
    if performs(script(None, copy, p, guard), op) {
        lemma_script_ops(None, copy, p, guard, op);
        let f = selected_delete(None);
        lemma_filter_map_contains(p.deletes, f, op.tag);
        assert(source_deletes(None, p) =~= p.deletes.filter_map(f));
    }
}

/// A protected repository loses nothing but tags of the `non-released` group,
/// and only where that group is selected and the upstream could be asked.
pub proof fn law_protected_repos_keep_their_tags(
    apply: Option<Seq<Seq<char>>>,
    copy: bool,
    p: ResolvedView,
    guard: Seq<Seq<char>>,
    op: StagingOpView,
)
    requires
        performs(script(apply, copy, p, guard), op),
        op.kind == StagingKind::Delete,
        guard.contains(op.tag.source_repo),
    ensures
        selects(apply, GROUP_NON_RELEASED@),
        p.non_released_note is None,
        p.non_released.contains(op.tag),
{
    lemma_script_ops(apply, copy, p, guard, op);
}

/// Whatever is deleted was planned for deletion in a selected group: a delete
/// item of a selected group, a mismatch that may be deleted, a retired tag, or a
/// non-released tag of the cache.
pub proof fn law_only_selected_groups_delete(
    apply: Option<Seq<Seq<char>>>,
    copy: bool,
    p: ResolvedView,
    guard: Seq<Seq<char>>,
    op: StagingOpView,
)
    requires
        performs(script(apply, copy, p, guard), op),
        op.kind == StagingKind::Delete,
    ensures
        (exists|d: DeleteItemView| #[trigger]
            p.deletes.contains(d) && d.tag == op.tag && selects(apply, group_of(d))) || (selects(
            apply,
            GROUP_MISMATCH@,
        ) && exists|m: MismatchInfoView| #[trigger]
            p.mismatched.contains(m) && m.tag == op.tag && m.deletable()) || (selects(
            apply,
            GROUP_RETIRED@,
        ) && p.prefix_deletes.contains(op.tag)) || (selects(apply, GROUP_NON_RELEASED@)
            && p.non_released.contains(op.tag)),
{
    lemma_script_ops(apply, copy, p, guard, op);
    let t = op.tag;
    if source_deletes(apply, p).contains(t) {
        let f = selected_delete(apply);
        let a = p.deletes.filter_map(f);
        let b = if selects(apply, GROUP_MISMATCH@) {
            p.mismatched.filter_map(deletable_tag())
        } else {
            Seq::empty()
        };
        let c = if selects(apply, GROUP_RETIRED@) {
            p.prefix_deletes
        } else {
            Seq::empty()
        };
        let all = a + b + c;
        let i = choose|i: int| 0 <= i < all.len() && all[i] == t;
        if i < a.len() {
            assert(a[i] == t);
            assert(a.contains(t));
            lemma_filter_map_contains(p.deletes, f, t);
            let j = choose|j: int| 0 <= j < p.deletes.len() && #[trigger] f(p.deletes[j]) == Some(t);
            assert(p.deletes.contains(p.deletes[j]));
        } else if i < a.len() + b.len() {
            assert(b[i - a.len()] == t);
            assert(b.contains(t));
            lemma_filter_map_contains(p.mismatched, deletable_tag(), t);
            let j = choose|j: int|
                0 <= j < p.mismatched.len() && #[trigger] deletable_tag()(p.mismatched[j]) == Some(
                    t,
                );
            assert(p.mismatched.contains(p.mismatched[j]));
        } else {
            assert(c[i - a.len() - b.len()] == t);
            assert(c.contains(t));
        }
    }
}

/// The word for an operation.
pub open spec fn op_verb(kind: StagingKind) -> Seq<char> {
    match kind {
        StagingKind::Copy => "copy"@,
        StagingKind::Move => "move"@,
        StagingKind::Delete => "delete"@,
    }
}

/// How many operations succeeded and failed so far.
#[derive(Debug, Clone, Copy, PartialEq, Eq)]
pub struct Tally {
    pub ok: usize,
    pub failed: usize,
}

/// Count the outcome of an operation and say what happened: `error` is what went
/// wrong, if anything.
pub fn report(tally: &mut Tally, op: &StagingOp, error: Option<&str>) -> (line: String)
    requires
        old(tally).ok < usize::MAX,
        old(tally).failed < usize::MAX,
    ensures
        error is None ==> final(tally).ok == old(tally).ok + 1 && final(tally).failed == old(
            tally,
        ).failed && line@ == "  "@ + op_verb(op.kind) + " ok: "@ + full_name(op.deep_view().tag),
        error matches Some(e) ==> final(tally).ok == old(tally).ok && final(tally).failed == old(
            tally,
        ).failed + 1 && line@ == "  "@ + op_verb(op.kind) + " FAILED: "@ + full_name(
            op.deep_view().tag,
        ) + ": "@ + e@,
{
    let verb = match op.kind {
        StagingKind::Copy => "copy",
        StagingKind::Move => "move",
        StagingKind::Delete => "delete",
    };
    let mut s = "  ".to_string();
    s.append(verb);
    match error {
        None => {
            tally.ok = tally.ok + 1;
            s.append(" ok: ");
            append_name(&mut s, &op.tag);
        },
        Some(e) => {
            tally.failed = tally.failed + 1;
            s.append(" FAILED: ");
            append_name(&mut s, &op.tag);
            s.append(": ");
            s.append(e);
        },
    }
    s
}

/// The closing line of an applied run.
pub fn applied_line(tally: &Tally) -> (s: String)
    ensures
        s@ == "\nApplied: "@ + decimal(tally.ok as nat) + " succeeded, "@ + decimal(
            tally.failed as nat,
        ) + " failed."@,
{
    let mut s = "\nApplied: ".to_string();
    append_count(&mut s, tally.ok);
    s.append(" succeeded, ");
    append_count(&mut s, tally.failed);
    s.append(" failed.");
    s
}

/// An applied run fails where an operation failed.
pub fn run_result(tally: &Tally) -> (r: Result<(), String>)
    ensures
        r is Ok <==> tally.failed == 0,
        r matches Err(e) ==> e@ == decimal(tally.failed as nat) + " staging operation(s) failed"@,
{
    if tally.failed > 0 {
        let mut s = count_text(tally.failed);
        s.append(" staging operation(s) failed");
        Err(s)
    } else {
        Ok(())
    }
}

} // verus!
