//! Copying a docker tag, step by step.
//!
//! The caller performs one action at a time and hands back what came of it. The
//! tag is resolved first, then the destination is looked at, then the manifest
//! closure is walked; only after all of that is anything written, and the source
//! tag of a move is deleted last.
use crate::docker::closure::{
    fed, law_finished_walk_is_the_closure, law_walk_begins, law_walk_hands_out, law_walk_reads,
    leads_to, missing_manifest, next_of, parts_of, walk_from, walk_holds, ClosureWalk, WalkView,
};
use crate::docker::paths::{manifest_path, manifest_path_for, tag_path, tag_path_for};
use crate::docker::promote::{
    check_collision, outcome_of, promote_outcome, resolve_tag, tag_root, tag_script, tag_steps,
    tag_taken, PromoteOutcome, PromoteOutcomeView, TagStep, TagStepView,
};
use crate::error::{DepotError, DepotErrorView};
use crate::ordered::key1;
use crate::service::promote::{CopyTarget, CopyTargetView};
use crate::service::records::{ArtifactRecord, ArtifactRecordView};
use vstd::prelude::*;

verus! {

/// Which tag is copied, and how.
#[derive(Debug, Clone, Copy)]
pub struct TagJob<'a> {
    pub image: Option<&'a str>,
    pub tag: &'a str,
    /// Delete the source tag after the copy.
    pub delete_source: bool,
    /// Replace a tag that the destination has already.
    pub overwrite: bool,
}

/// The contents of a [`TagJob`].
#[verifier::ext_equal]
pub struct TagJobView {
    pub image: Option<Seq<char>>,
    pub tag: Seq<char>,
    pub delete_source: bool,
    pub overwrite: bool,
}

impl<'a> DeepView for TagJob<'a> {
    type V = TagJobView;

    open spec fn deep_view(&self) -> TagJobView {
        TagJobView {
            image: self.image.deep_view(),
            tag: self.tag@,
            delete_source: self.delete_source,
            overwrite: self.overwrite,
        }
    }
}

/// How far a copy has come: what is awaited.
#[derive(Debug)]
pub enum CopyState {
    /// Nothing was asked yet.
    Start,
    /// The record of the source tag.
    Tag,
    /// Whether the destination has the tag.
    Dest { root: String },
    /// The text of a manifest.
    Manifest { root: String, walk: ClosureWalk, digest: String },
    /// The end of a writing step.
    Write { root: String, steps: Vec<TagStep>, at: usize, found: Vec<bool> },
    /// Nothing more.
    Finished,
}

/// The contents of a [`CopyState`].
#[verifier::ext_equal]
pub enum CopyStateView {
    Start,
    Tag,
    Dest { root: Seq<char> },
    Manifest { root: Seq<char>, walk: WalkView, digest: Seq<char> },
    Write { root: Seq<char>, steps: Seq<TagStepView>, at: int, found: Seq<bool> },
    Finished,
}

impl DeepView for CopyState {
    type V = CopyStateView;

    open spec fn deep_view(&self) -> CopyStateView {
        match self {
            CopyState::Start => CopyStateView::Start,
            CopyState::Tag => CopyStateView::Tag,
            CopyState::Dest { root } => CopyStateView::Dest { root: root@ },
            CopyState::Manifest { root, walk, digest } => CopyStateView::Manifest {
                root: root@,
                walk: walk.deep_view(),
                digest: digest@,
            },
            CopyState::Write { root, steps, at, found } => CopyStateView::Write {
                root: root@,
                steps: steps.deep_view(),
                at: *at as int,
                found: found@,
            },
            CopyState::Finished => CopyStateView::Finished,
        }
    }
}

/// What came of an action.
#[derive(Debug)]
pub enum CopyEvent {
    /// Begin.
    Begin,
    /// The record at the tag's path in the source repository.
    Tag(Option<ArtifactRecord>),
    /// Whether the destination has a record at the tag's path.
    Dest(bool),
    /// The text of the manifest that was asked for, if it is there.
    Manifest(Option<Vec<u8>>),
    /// A record was copied, or there was none.
    Copied(bool),
    /// The source tag was deleted.
    Deleted,
}

/// The contents of a [`CopyEvent`].
#[verifier::ext_equal]
pub enum CopyEventView {
    Begin,
    Tag(Option<ArtifactRecordView>),
    Dest(bool),
    Manifest(Option<Seq<u8>>),
    Copied(bool),
    Deleted,
}

impl DeepView for CopyEvent {
    type V = CopyEventView;

    open spec fn deep_view(&self) -> CopyEventView {
        match self {
            CopyEvent::Begin => CopyEventView::Begin,
            CopyEvent::Tag(r) => CopyEventView::Tag(r.deep_view()),
            CopyEvent::Dest(b) => CopyEventView::Dest(*b),
            CopyEvent::Manifest(j) => CopyEventView::Manifest(
                match j {
                    Some(v) => Some(v@),
                    None => None,
                },
            ),
            CopyEvent::Copied(b) => CopyEventView::Copied(*b),
            CopyEvent::Deleted => CopyEventView::Deleted,
        }
    }
}

/// What to do next.
#[derive(Debug, PartialEq, Eq)]
pub enum CopyAction {
    /// Read the record at this path of the source repository.
    ReadTag(String),
    /// Look whether the destination has a record at this path.
    ReadDest(String),
    /// Read the text of the manifest at this path of the source repository.
    ReadManifest(String),
    /// Copy the record at this path.
    Copy(String),
    /// Delete the source tag.
    DeleteTag,
    /// The copy is done.
    Done(PromoteOutcome),
    /// The copy is refused; nothing was written.
    Fail(DepotError),
}

/// The contents of a [`CopyAction`].
#[verifier::ext_equal]
pub enum CopyActionView {
    ReadTag(Seq<char>),
    ReadDest(Seq<char>),
    ReadManifest(Seq<char>),
    Copy(Seq<char>),
    DeleteTag,
    Done(PromoteOutcomeView),
    Fail(DepotErrorView),
}

impl DeepView for CopyAction {
    type V = CopyActionView;

    open spec fn deep_view(&self) -> CopyActionView {
        match self {
            CopyAction::ReadTag(p) => CopyActionView::ReadTag(p@),
            CopyAction::ReadDest(p) => CopyActionView::ReadDest(p@),
            CopyAction::ReadManifest(p) => CopyActionView::ReadManifest(p@),
            CopyAction::Copy(p) => CopyActionView::Copy(p@),
            CopyAction::DeleteTag => CopyActionView::DeleteTag,
            CopyAction::Done(o) => CopyActionView::Done(o.deep_view()),
            CopyAction::Fail(e) => CopyActionView::Fail(e.deep_view()),
        }
    }
}

/// An event answers what a state awaits.
pub open spec fn answers(s: CopyStateView, e: CopyEventView) -> bool {
    match s {
        CopyStateView::Start => e is Begin,
        CopyStateView::Tag => e is Tag,
        CopyStateView::Dest { root: _ } => e is Dest,
        CopyStateView::Manifest { root: _, walk: _, digest: _ } => e is Manifest,
        CopyStateView::Write { root: _, steps, at, found: _ } => 0 <= at < steps.len() && (
        match steps[at] {
            TagStepView::Copy(_) => e is Copied,
            TagStepView::DeleteTag => e is Deleted,
        }),
        CopyStateView::Finished => false,
    }
}

/// The writing step at a position, or the end.
pub open spec fn write_on(
    root: Seq<char>,
    steps: Seq<TagStepView>,
    at: int,
    found: Seq<bool>,
) -> (CopyStateView, CopyActionView) {
    if 0 <= at < steps.len() {
        (
            CopyStateView::Write { root, steps, at, found },
            match steps[at] {
                TagStepView::Copy(p) => CopyActionView::Copy(p),
                TagStepView::DeleteTag => CopyActionView::DeleteTag,
            },
        )
    } else {
        (CopyStateView::Finished, CopyActionView::Done(outcome_of(root, found)))
    }
}

/// The next manifest of a walk, or the first writing step where none is left.
pub open spec fn walk_on(job: TagJobView, root: Seq<char>, w: WalkView) -> (
    CopyStateView,
    CopyActionView,
) {
    match next_of(w) {
        (Some(d), walk) => (
            CopyStateView::Manifest { root, walk, digest: d },
            CopyActionView::ReadManifest(manifest_path(job.image, d)),
        ),
        (None, walk) => write_on(
            root,
            tag_steps(walk, job.image, job.tag, job.delete_source),
            0,
            Seq::empty(),
        ),
    }
}

/// The step after an event that answers what the state awaits.
pub open spec fn copy_next(
    t: CopyTargetView,
    job: TagJobView,
    s: CopyStateView,
    e: CopyEventView,
) -> (CopyStateView, CopyActionView) {
    match (s, e) {
        (CopyStateView::Start, CopyEventView::Begin) => (
            CopyStateView::Tag,
            CopyActionView::ReadTag(tag_path(job.image, job.tag)),
        ),
        (CopyStateView::Tag, CopyEventView::Tag(rec)) => match tag_root(
            t,
            job.image,
            job.tag,
            rec,
        ) {
            Err(x) => (CopyStateView::Finished, CopyActionView::Fail(x)),
            Ok(root) => if job.overwrite {
                walk_on(job, root, walk_from(root))
            } else {
                (
                    CopyStateView::Dest { root },
                    CopyActionView::ReadDest(tag_path(job.image, job.tag)),
                )
            },
        },
        (CopyStateView::Dest { root }, CopyEventView::Dest(taken)) => if taken {
            (CopyStateView::Finished, CopyActionView::Fail(tag_taken(t, job.tag)))
        } else {
            walk_on(job, root, walk_from(root))
        },
        (
            CopyStateView::Manifest { root, walk, digest },
            CopyEventView::Manifest(json),
        ) => match json {
            Some(j) => walk_on(job, root, fed(walk, digest, parts_of(j))),
            None => (
                CopyStateView::Finished,
                CopyActionView::Fail(missing_manifest(digest, job.tag, t.source_repo)),
            ),
        },
        (CopyStateView::Write { root, steps, at, found }, CopyEventView::Copied(b)) => write_on(
            root,
            steps,
            at + 1,
            found.push(b),
        ),
        (CopyStateView::Write { root, steps, at, found }, _) => write_on(
            root,
            steps,
            at + 1,
            found,
        ),
        _ => (
            CopyStateView::Finished,
            CopyActionView::Fail(DepotErrorView::Internal("nothing is awaited"@)),
        ),
    }
}

/// Whether an event answers what a state awaits.
pub fn is_answer(state: &CopyState, event: &CopyEvent) -> (r: bool)
    ensures
        r == answers(state.deep_view(), event.deep_view()),
{
    match state {
        CopyState::Start => matches!(event, CopyEvent::Begin),
        CopyState::Tag => matches!(event, CopyEvent::Tag(_)),
        CopyState::Dest { root: _ } => matches!(event, CopyEvent::Dest(_)),
        CopyState::Manifest { root: _, walk: _, digest: _ } => matches!(
            event,
            CopyEvent::Manifest(_)
        ),
        CopyState::Write { root: _, steps, at, found: _ } => {
            if *at >= steps.len() {
                return false;
            }
            assert(steps.deep_view()[*at as int] == steps@[*at as int].deep_view());
            match &steps[*at] {
                TagStep::Copy(_) => matches!(event, CopyEvent::Copied(_)),
                TagStep::DeleteTag => matches!(event, CopyEvent::Deleted),
            }
        },
        CopyState::Finished => false,
    }
}

/// The writing step at a position, or the end.
fn write_step(root: String, steps: Vec<TagStep>, at: usize, found: Vec<bool>) -> (r: (
    CopyState,
    CopyAction,
))
    ensures
        (r.0.deep_view(), r.1.deep_view()) == write_on(
            root@,
            steps.deep_view(),
            at as int,
            found@,
        ),
{
    if at < steps.len() {
        assert(steps.deep_view()[at as int] == steps@[at as int].deep_view());
        let action = match &steps[at] {
            TagStep::Copy(p) => CopyAction::Copy(p.clone()),
            TagStep::DeleteTag => CopyAction::DeleteTag,
        };
        (CopyState::Write { root, steps, at, found }, action)
    } else {
        (CopyState::Finished, CopyAction::Done(promote_outcome(root, found.as_slice())))
    }
}

/// The next manifest of a walk, or the first writing step where none is left.
fn walk_step(job: &TagJob, root: String, walk: ClosureWalk) -> (r: (CopyState, CopyAction))
    ensures
        (r.0.deep_view(), r.1.deep_view()) == walk_on(job.deep_view(), root@, walk.deep_view()),
{
    let mut walk = walk;
    match walk.next() {
        Some(digest) => {
            let path = manifest_path_for(job.image, digest.as_str());
            (CopyState::Manifest { root, walk, digest }, CopyAction::ReadManifest(path))
        },
        None => {
            let steps = tag_script(&walk, job.image, job.tag, job.delete_source);
            let found: Vec<bool> = Vec::new();
            assert(found@ =~= Seq::<bool>::empty());
            write_step(root, steps, 0, found)
        },
    }
}

/// The next step of copying, or moving, a tag with its manifest closure, after an
/// event that answers what the state awaits.
pub fn copy_tag(t: &CopyTarget, job: &TagJob, state: CopyState, event: CopyEvent) -> (r: (
    CopyState,
    CopyAction,
))
    requires
        answers(state.deep_view(), event.deep_view()),
    ensures
        (r.0.deep_view(), r.1.deep_view()) == copy_next(
            t.deep_view(),
            job.deep_view(),
            state.deep_view(),
            event.deep_view(),
        ),
{
    match state {
        CopyState::Start => (
            CopyState::Tag,
            CopyAction::ReadTag(tag_path_for(job.image, job.tag)),
        ),
        CopyState::Tag => {
            let rec = match event {
                CopyEvent::Tag(r) => r,
                _ => None,
            };
            match resolve_tag(t, job.image, job.tag, rec.as_ref()) {
                Err(e) => (CopyState::Finished, CopyAction::Fail(e)),
                Ok(root) => if job.overwrite {
                    let walk = ClosureWalk::start(root.as_str());
                    walk_step(job, root, walk)
                } else {
                    (
                        CopyState::Dest { root },
                        CopyAction::ReadDest(tag_path_for(job.image, job.tag)),
                    )
                },
            }
        },
        CopyState::Dest { root } => {
            let taken = match event {
                CopyEvent::Dest(b) => b,
                _ => true,
            };
            match check_collision(t, job.tag, false, taken) {
                Err(e) => (CopyState::Finished, CopyAction::Fail(e)),
                Ok(()) => {
                    let walk = ClosureWalk::start(root.as_str());
                    walk_step(job, root, walk)
                },
            }
        },
        CopyState::Manifest { root, walk, digest } => {
            let json = match event {
                CopyEvent::Manifest(j) => j,
                _ => None,
            };
            let mut walk = walk;
            let fed = match &json {
                Some(j) => walk.feed(digest, Some(j.as_slice()), job.tag, t.source_repo),
                None => walk.feed(digest, None, job.tag, t.source_repo),
            };
            match fed {
                Err(e) => (CopyState::Finished, CopyAction::Fail(e)),
                Ok(()) => walk_step(job, root, walk),
            }
        },
        CopyState::Write { root, steps, at, found } => {
            assert(at < steps.len());
            let mut found = found;
            if let CopyEvent::Copied(b) = event {
                found.push(b);
            }
            write_step(root, steps, at + 1, found)
        },
        CopyState::Finished => (
            CopyState::Finished,
            CopyAction::Fail(DepotError::Internal("nothing is awaited".to_string())),
        ),
    }
}

/// What a copy meets: the record of the source tag, whether the destination has
/// the tag, and the texts of the manifests in the source repository.
pub struct CopyWorld {
    pub tag: Option<ArtifactRecordView>,
    pub taken: bool,
    pub docs: spec_fn(Seq<char>) -> Option<Seq<u8>>,
}

/// An event tells what is so.
pub open spec fn is_true(world: CopyWorld, s: CopyStateView, e: CopyEventView) -> bool {
    match e {
        CopyEventView::Tag(r) => r == world.tag,
        CopyEventView::Dest(b) => b == world.taken,
        CopyEventView::Manifest(j) => s matches CopyStateView::Manifest {
            root: _,
            walk: _,
            digest,
        } ==> j == (world.docs)(digest),
        _ => true,
    }
}

/// The children and the blobs of each manifest.
pub open spec fn doc_parts(world: CopyWorld) -> spec_fn(Seq<char>) -> (
    Seq<Seq<char>>,
    Seq<Seq<char>>,
) {
    |d: Seq<char>|
        match (world.docs)(d) {
            Some(j) => parts_of(j),
            None => (Seq::empty(), Seq::empty()),
        }
}

/// The tag resolves to a root manifest, and the destination is free for it.
pub open spec fn admitted(
    t: CopyTargetView,
    job: TagJobView,
    world: CopyWorld,
    root: Seq<char>,
) -> bool {
    tag_root(t, job.image, job.tag, world.tag) == Ok::<Seq<char>, DepotErrorView>(root) && (
    job.overwrite || !world.taken)
}

/// Every manifest of a list is there.
pub open spec fn all_there(world: CopyWorld, manifests: Seq<Seq<char>>) -> bool {
    forall|d: Seq<char>| #[trigger] manifests.contains(d) ==> (world.docs)(d) is Some
}

/// A walk has read the whole closure of a root manifest.
pub open spec fn walked(world: CopyWorld, root: Seq<char>, w: WalkView) -> bool {
    walk_holds(w, None, doc_parts(world), root) && w.stack.len() == 0 && all_there(
        world,
        w.manifests,
    )
}

/// Some steps are those of the whole closure of a root manifest.
pub open spec fn writes_closure(
    job: TagJobView,
    world: CopyWorld,
    root: Seq<char>,
    steps: Seq<TagStepView>,
) -> bool {
    exists|w: WalkView| #[trigger]
        walked(world, root, w) && steps == tag_steps(w, job.image, job.tag, job.delete_source)
}

/// What holds of a copy at any time.
pub open spec fn copy_holds(
    t: CopyTargetView,
    job: TagJobView,
    world: CopyWorld,
    s: CopyStateView,
) -> bool {
    match s {
        CopyStateView::Dest { root } => tag_root(t, job.image, job.tag, world.tag) == Ok::<
            Seq<char>,
            DepotErrorView,
        >(root) && !job.overwrite,
        CopyStateView::Manifest { root, walk, digest } => admitted(t, job, world, root)
            && walk_holds(walk, Some(digest), doc_parts(world), root) && all_there(
            world,
            walk.manifests,
        ),
        CopyStateView::Write { root, steps, at, found: _ } => admitted(t, job, world, root) && 0
            <= at < steps.len() && writes_closure(job, world, root, steps),
        _ => true,
    }
}

/// An error tells of a manifest that a root leads to and that is not there.
pub open spec fn is_missing(
    t: CopyTargetView,
    job: TagJobView,
    world: CopyWorld,
    root: Seq<char>,
    e: DepotErrorView,
) -> bool {
    exists|d: Seq<char>| #[trigger]
        leads_to(doc_parts(world), root, d) && (world.docs)(d) is None && e == missing_manifest(
            d,
            job.tag,
            t.source_repo,
        )
}

/// An error is the one that is due: the tag does not resolve; else the destination
/// has the tag and may not lose it; else a manifest that the tag leads to is
/// missing in the source repository.
pub open spec fn error_is_due(
    t: CopyTargetView,
    job: TagJobView,
    world: CopyWorld,
    e: DepotErrorView,
) -> bool {
    match tag_root(t, job.image, job.tag, world.tag) {
        Err(x) => e == x,
        Ok(root) => if world.taken && !job.overwrite {
            e == tag_taken(t, job.tag)
        } else {
            is_missing(t, job, world, root, e)
        },
    }
}

/// Nothing stands against a copy: the tag resolves, the destination is free, and
/// every manifest that the tag leads to is there.
pub open spec fn copy_is_due(
    t: CopyTargetView,
    job: TagJobView,
    world: CopyWorld,
    root: Seq<char>,
) -> bool {
    admitted(t, job, world, root) && forall|d: Seq<char>| #[trigger]
        leads_to(doc_parts(world), root, d) ==> (world.docs)(d) is Some
}

/// An action writes or deletes something.
pub open spec fn is_write(a: CopyActionView) -> bool {
    a is Copy || a is DeleteTag
}

/// What follows a walk holds.
proof fn lemma_walk_on(
    t: CopyTargetView,
    job: TagJobView,
    world: CopyWorld,
    root: Seq<char>,
    w: WalkView,
)
    requires
        admitted(t, job, world, root),
        walk_holds(w, None, doc_parts(world), root),
        all_there(world, w.manifests),
    ensures
        copy_holds(t, job, world, walk_on(job, root, w).0),
        !(walk_on(job, root, w).1 is Fail),
        !(walk_on(job, root, w).1 is Done),
        is_write(walk_on(job, root, w).1) ==> walk_on(job, root, w).0 is Write,
    decreases w.stack.len(),
{
    law_walk_hands_out(w, doc_parts(world), root);
    lemma_manifests_stay(w);
    let (next, walk) = next_of(w);
    if next is None {
        assert(walked(world, root, walk));
        let steps = tag_steps(walk, job.image, job.tag, job.delete_source);
        assert(steps.len() > 0);
        assert(writes_closure(job, world, root, steps));
    }
}

/// A missing manifest stands against a copy.
proof fn lemma_missing_is_due(
    t: CopyTargetView,
    job: TagJobView,
    world: CopyWorld,
    root: Seq<char>,
    d: Seq<char>,
)
    requires
        admitted(t, job, world, root),
        leads_to(doc_parts(world), root, d),
        (world.docs)(d) is None,
    ensures
        error_is_due(t, job, world, missing_manifest(d, job.tag, t.source_repo)),
{
    let e = missing_manifest(d, job.tag, t.source_repo);
    assert(is_missing(t, job, world, root, e));
}

/// Handing out a manifest reads none.
proof fn lemma_manifests_stay(w: WalkView)
    ensures
        next_of(w).1.manifests == w.manifests,
    decreases w.stack.len(),
{
    if w.stack.len() > 0 && w.seen.contains(key1(w.stack.last())) {
        lemma_manifests_stay(WalkView { stack: w.stack.drop_last(), ..w });
    }
}

/// A copy that writes is one that nothing stands against.
proof fn lemma_writing_is_due(
    t: CopyTargetView,
    job: TagJobView,
    world: CopyWorld,
    s: CopyStateView,
)
    requires
        copy_holds(t, job, world, s),
    ensures
        s matches CopyStateView::Write { root, steps: _, at: _, found: _ } ==> copy_is_due(
            t,
            job,
            world,
            root,
        ),
{
    if let CopyStateView::Write { root, steps, at: _, found: _ } = s {
        let w = choose|w: WalkView| #[trigger]
            walked(world, root, w) && steps == tag_steps(w, job.image, job.tag, job.delete_source);
        law_finished_walk_is_the_closure(w, doc_parts(world), root);
        assert forall|d: Seq<char>| #[trigger] leads_to(doc_parts(world), root, d) implies (
        world.docs)(d) is Some by {
            assert(w.manifests.contains(d));
        }
    }
}

/// What a step does: it keeps what holds of a copy; a refusal is the one that is
/// due, and comes before anything was written; something is written only in the
/// writing state, step after step; and the copy is done only where nothing stands
/// against it.
pub open spec fn step_is_sound(
    t: CopyTargetView,
    job: TagJobView,
    world: CopyWorld,
    s: CopyStateView,
    next: CopyStateView,
    action: CopyActionView,
) -> bool {
    &&& copy_holds(t, job, world, next)
    &&& action matches CopyActionView::Fail(x) ==> !(s is Write) && error_is_due(t, job, world, x)
    &&& is_write(action) ==> next is Write
    &&& s matches CopyStateView::Write { root, steps, at, found: _ } ==> next == (if at + 1
        < steps.len() {
        CopyStateView::Write { root, steps, at: at + 1, found: next->found }
    } else {
        CopyStateView::Finished
    })
    &&& action matches CopyActionView::Done(o) ==> s is Write && copy_is_due(
        t,
        job,
        world,
        o.digest,
    )
}

/// The step after the record of the tag is sound.
proof fn lemma_tag_step(
    t: CopyTargetView,
    job: TagJobView,
    world: CopyWorld,
    rec: Option<ArtifactRecordView>,
)
    requires
        rec == world.tag,
    ensures
        ({
            let (next, action) = copy_next(t, job, CopyStateView::Tag, CopyEventView::Tag(rec));
            step_is_sound(t, job, world, CopyStateView::Tag, next, action)
        }),
{
    match tag_root(t, job.image, job.tag, rec) {
        Ok(root) => {
            if job.overwrite {
                law_walk_begins(doc_parts(world), root);
                lemma_walk_on(t, job, world, root, walk_from(root));
            }
        },
        Err(x) => {
            assert(error_is_due(t, job, world, x));
        },
    }
}

/// The step after the look at the destination is sound.
proof fn lemma_dest_step(
    t: CopyTargetView,
    job: TagJobView,
    world: CopyWorld,
    root: Seq<char>,
    taken: bool,
)
    requires
        copy_holds(t, job, world, CopyStateView::Dest { root }),
        taken == world.taken,
    ensures
        ({
            let s = CopyStateView::Dest { root };
            let (next, action) = copy_next(t, job, s, CopyEventView::Dest(taken));
            step_is_sound(t, job, world, s, next, action)
        }),
{
    if !taken {
        law_walk_begins(doc_parts(world), root);
        lemma_walk_on(t, job, world, root, walk_from(root));
    } else {
        assert(error_is_due(t, job, world, tag_taken(t, job.tag)));
    }
}

/// A walk that has read one more manifest, which is there, has read manifests that
/// are there.
proof fn lemma_one_more_there(
    world: CopyWorld,
    w: WalkView,
    digest: Seq<char>,
    parts: (Seq<Seq<char>>, Seq<Seq<char>>),
)
    requires
        all_there(world, w.manifests),
        (world.docs)(digest) is Some,
    ensures
        all_there(world, fed(w, digest, parts).manifests),
{
    let after = fed(w, digest, parts).manifests;
    assert forall|d: Seq<char>| #[trigger] after.contains(d) implies (world.docs)(d) is Some by {
        let i = choose|i: int| 0 <= i < after.len() && after[i] == d;
        if i < w.manifests.len() {
            assert(w.manifests[i] == d);
            assert(w.manifests.contains(d));
        }
    }
}

/// The step after the text of a manifest is sound.
proof fn lemma_manifest_step(
    t: CopyTargetView,
    job: TagJobView,
    world: CopyWorld,
    root: Seq<char>,
    walk: WalkView,
    digest: Seq<char>,
    json: Option<Seq<u8>>,
)
    requires
        copy_holds(t, job, world, CopyStateView::Manifest { root, walk, digest }),
        json == (world.docs)(digest),
    ensures
        ({
            let s = CopyStateView::Manifest { root, walk, digest };
            let (next, action) = copy_next(t, job, s, CopyEventView::Manifest(json));
            step_is_sound(t, job, world, s, next, action)
        }),
{
    match json {
        Some(j) => {
            assert(doc_parts(world)(digest) == parts_of(j));
            law_walk_reads(walk, digest, doc_parts(world), root);
            lemma_one_more_there(world, walk, digest, parts_of(j));
            lemma_walk_on(t, job, world, root, fed(walk, digest, parts_of(j)));
        },
        None => {
            lemma_missing_is_due(t, job, world, root, digest);
        },
    }
}

/// The step after something was written is sound.
proof fn lemma_write_step(
    t: CopyTargetView,
    job: TagJobView,
    world: CopyWorld,
    s: CopyStateView,
    e: CopyEventView,
)
    requires
        s is Write,
        copy_holds(t, job, world, s),
        answers(s, e),
    ensures
        ({
            let (next, action) = copy_next(t, job, s, e);
            step_is_sound(t, job, world, s, next, action)
        }),
{
    lemma_writing_is_due(t, job, world, s);
    if let CopyStateView::Write { root, steps, at, found } = s {
        let after = match e {
            CopyEventView::Copied(b) => found.push(b),
            _ => found,
        };
        let (next, action) = copy_next(t, job, s, e);
        assert((next, action) == write_on(root, steps, at + 1, after));
        if at + 1 < steps.len() {
            assert(next == (CopyStateView::Write { root, steps, at: at + 1, found: after }));
            assert(copy_holds(t, job, world, next));
        }
    }
}

/// What holds of a copy is kept by every step. A refusal is the one that is due,
/// and comes before anything was written. Something is written only once the tag
/// is resolved, the destination is free and the whole closure was read. The copy
/// is done only where nothing stands against it.
pub proof fn law_copy_writes_after_all_checks(
    t: CopyTargetView,
    job: TagJobView,
    world: CopyWorld,
    s: CopyStateView,
    e: CopyEventView,
)
    requires
        copy_holds(t, job, world, s),
        answers(s, e),
        is_true(world, s, e),
    ensures
        ({
            let (next, action) = copy_next(t, job, s, e);
            step_is_sound(t, job, world, s, next, action)
        }),
{
    match s {
        CopyStateView::Start => {},
        CopyStateView::Tag => {
            lemma_tag_step(t, job, world, e->Tag_0);
        },
        CopyStateView::Dest { root } => {
            lemma_dest_step(t, job, world, root, e->Dest_0);
        },
        CopyStateView::Manifest { root, walk, digest } => {
            lemma_manifest_step(t, job, world, root, walk, digest, e->Manifest_0);
        },
        CopyStateView::Write { root: _, steps: _, at: _, found: _ } => {
            lemma_write_step(t, job, world, s, e);
        },
        CopyStateView::Finished => {},
    }
}

/// Where nothing stands against a copy, no refusal is due.
pub proof fn law_due_copy_is_not_refused(
    t: CopyTargetView,
    job: TagJobView,
    world: CopyWorld,
    root: Seq<char>,
    e: DepotErrorView,
)
    requires
        copy_is_due(t, job, world, root),
    ensures
        !error_is_due(t, job, world, e),
{
    if is_missing(t, job, world, root, e) {
        let d = choose|d: Seq<char>| #[trigger]
            leads_to(doc_parts(world), root, d) && (world.docs)(d) is None;
        assert((world.docs)(d) is Some);
    }
}

/// The state and the actions of a copy after some events.
pub open spec fn copy_run(
    t: CopyTargetView,
    job: TagJobView,
    events: Seq<CopyEventView>,
) -> (CopyStateView, Seq<CopyActionView>)
    decreases events.len(),
{
    if events.len() == 0 {
        (CopyStateView::Start, Seq::empty())
    } else {
        let (s, actions) = copy_run(t, job, events.drop_last());
        let (next, a) = copy_next(t, job, s, events.last());
        (next, actions.push(a))
    }
}

/// Each event of a run answers what was awaited.
pub open spec fn run_fits(t: CopyTargetView, job: TagJobView, events: Seq<CopyEventView>) -> bool
    decreases events.len(),
{
    events.len() == 0 || (run_fits(t, job, events.drop_last()) && answers(
        copy_run(t, job, events.drop_last()).0,
        events.last(),
    ))
}

/// Some action of a list refuses the copy.
pub open spec fn refused(actions: Seq<CopyActionView>) -> bool {
    exists|i: int| 0 <= i < actions.len() && (#[trigger] actions[i]) is Fail
}

/// Some action of a list writes or deletes something.
pub open spec fn wrote(actions: Seq<CopyActionView>) -> bool {
    exists|i: int| 0 <= i < actions.len() && is_write(#[trigger] actions[i])
}

/// What a list does with one action more.
proof fn lemma_one_more(actions: Seq<CopyActionView>, a: CopyActionView)
    ensures
        refused(actions.push(a)) <==> refused(actions) || a is Fail,
        wrote(actions.push(a)) <==> wrote(actions) || is_write(a),
{
    let more = actions.push(a);
    assert(more[actions.len() as int] == a);
    assert forall|i: int| 0 <= i < actions.len() implies more[i] == #[trigger] actions[i] by {}
    if refused(actions) {
        let i = choose|i: int| 0 <= i < actions.len() && (#[trigger] actions[i]) is Fail;
        assert(more[i] is Fail);
    }
    if wrote(actions) {
        let i = choose|i: int| 0 <= i < actions.len() && is_write(#[trigger] actions[i]);
        assert(is_write(more[i]));
    }
    if refused(more) {
        let i = choose|i: int| 0 <= i < more.len() && (#[trigger] more[i]) is Fail;
        if i < actions.len() {
            assert(actions[i] is Fail);
        }
    }
    if wrote(more) {
        let i = choose|i: int| 0 <= i < more.len() && is_write(#[trigger] more[i]);
        if i < actions.len() {
            assert(is_write(actions[i]));
        }
    }
}

/// Before the writing nothing is written, and from then on nothing is refused.
proof fn lemma_run(t: CopyTargetView, job: TagJobView, events: Seq<CopyEventView>)
    requires
        run_fits(t, job, events),
    ensures
        ({
            let (s, actions) = copy_run(t, job, events);
            &&& s is Write ==> !refused(actions)
            &&& !(s is Write) && !(s is Finished) ==> !refused(actions) && !wrote(actions)
            &&& !(refused(actions) && wrote(actions))
        }),
    decreases events.len(),
{
    if events.len() > 0 {
        let rest = events.drop_last();
        lemma_run(t, job, rest);
        let (s, actions) = copy_run(t, job, rest);
        let (next, a) = copy_next(t, job, s, events.last());
        lemma_one_more(actions, a);
        match (s, events.last()) {
            (CopyStateView::Manifest { root, walk, digest }, CopyEventView::Manifest(j)) => {
                assert(next is Write || next is Manifest || next is Finished);
            },
            _ => {},
        }
    }
}

/// A copy that is refused writes and deletes nothing, whatever came of its
/// actions.
pub proof fn law_refused_copy_writes_nothing(
    t: CopyTargetView,
    job: TagJobView,
    events: Seq<CopyEventView>,
)
    requires
        run_fits(t, job, events),
    ensures
        refused(copy_run(t, job, events).1) ==> !wrote(copy_run(t, job, events).1),
{
    lemma_run(t, job, events);
}

/// Each event of a run tells what is so.
pub open spec fn run_is_true(
    t: CopyTargetView,
    job: TagJobView,
    world: CopyWorld,
    events: Seq<CopyEventView>,
) -> bool
    decreases events.len(),
{
    events.len() == 0 || (run_is_true(t, job, world, events.drop_last()) && is_true(
        world,
        copy_run(t, job, events.drop_last()).0,
        events.last(),
    ))
}

/// Nothing stands against a copy, whatever its root manifest is.
pub open spec fn may_copy(t: CopyTargetView, job: TagJobView, world: CopyWorld) -> bool {
    tag_root(t, job.image, job.tag, world.tag) matches Ok(root) && copy_is_due(t, job, world, root)
}

/// A copy that is told what is so writes or deletes something only where the tag
/// resolves, the destination is free for it and every manifest that it leads to is
/// there; where it is refused, the error is the one that is due; and where it is
/// done, its outcome names the root manifest of the tag.
pub proof fn law_copy_run(
    t: CopyTargetView,
    job: TagJobView,
    world: CopyWorld,
    events: Seq<CopyEventView>,
)
    requires
        run_fits(t, job, events),
        run_is_true(t, job, world, events),
    ensures
        ({
            let (s, actions) = copy_run(t, job, events);
            &&& copy_holds(t, job, world, s)
            &&& wrote(actions) ==> may_copy(t, job, world)
            &&& forall|i: int|
                0 <= i < actions.len() ==> (#[trigger] actions[i] matches CopyActionView::Fail(e)
                    ==> error_is_due(t, job, world, e))
            &&& forall|i: int|
                0 <= i < actions.len() ==> (#[trigger] actions[i] matches CopyActionView::Done(o)
                    ==> copy_is_due(t, job, world, o.digest))
        }),
    decreases events.len(),
{
    if events.len() > 0 {
        let rest = events.drop_last();
        law_copy_run(t, job, world, rest);
        let (s, actions) = copy_run(t, job, rest);
        let (next, a) = copy_next(t, job, s, events.last());
        law_copy_writes_after_all_checks(t, job, world, s, events.last());
        lemma_writing_is_due(t, job, world, next);
        lemma_one_more(actions, a);
    }
}

/// A list holds every manifest that a root leads to.
pub open spec fn lists_closure(
    world: CopyWorld,
    root: Seq<char>,
    closure: Seq<Seq<char>>,
) -> bool {
    forall|d: Seq<char>| #[trigger] leads_to(doc_parts(world), root, d) ==> closure.contains(d)
}

/// What is left of `n` after `k` of them.
pub open spec fn left_over(n: int, k: int) -> nat {
    if k <= n {
        (n - k) as nat
    } else {
        0
    }
}

/// How far a copy is from its end: the stage that it is in and, within a stage, the
/// manifests of the closure that are not read, or the writing steps that are left.
pub open spec fn distance(closure: Seq<Seq<char>>, s: CopyStateView) -> (nat, nat) {
    match s {
        CopyStateView::Start => (5, 0),
        CopyStateView::Tag => (4, 0),
        CopyStateView::Dest { root: _ } => (3, 0),
        CopyStateView::Manifest { root: _, walk, digest: _ } => (
            2,
            left_over(closure.len() as int, walk.manifests.len() as int),
        ),
        CopyStateView::Write { root: _, steps, at, found: _ } => (
            1,
            left_over(steps.len() as int, at),
        ),
        CopyStateView::Finished => (0, 0),
    }
}

/// A distance is shorter than another.
pub open spec fn is_nearer(a: (nat, nat), b: (nat, nat)) -> bool {
    a.0 < b.0 || (a.0 == b.0 && a.1 < b.1)
}

/// Distinct texts of a list are no more than the list has.
proof fn lemma_distinct_fit(some: Seq<Seq<char>>, all: Seq<Seq<char>>)
    requires
        some.no_duplicates(),
        forall|d: Seq<char>| #[trigger] some.contains(d) ==> all.contains(d),
    ensures
        some.len() <= all.len(),
{
    some.unique_seq_to_set();
    all.lemma_cardinality_of_set();
    assert forall|d: Seq<char>| some.to_set().contains(d) implies all.to_set().contains(d) by {
        assert(some.contains(d));
    }
    vstd::set_lib::lemma_len_subset(some.to_set(), all.to_set());
}

/// While a manifest is read, fewer manifests than the closure has were read before.
proof fn lemma_room(
    world: CopyWorld,
    root: Seq<char>,
    closure: Seq<Seq<char>>,
    w: WalkView,
    digest: Seq<char>,
)
    requires
        lists_closure(world, root, closure),
        walk_holds(w, Some(digest), doc_parts(world), root),
    ensures
        w.manifests.len() < closure.len(),
{
    let more = w.manifests.push(digest);
    assert forall|i: int, j: int|
        0 <= i < more.len() && 0 <= j < more.len() && i != j implies more[i] != more[j] by {
        if i < w.manifests.len() {
            assert(w.manifests.contains(w.manifests[i]));
        }
        if j < w.manifests.len() {
            assert(w.manifests.contains(w.manifests[j]));
        }
    }
    assert forall|d: Seq<char>| #[trigger] more.contains(d) implies closure.contains(d) by {
        let i = choose|i: int| 0 <= i < more.len() && more[i] == d;
        if i < w.manifests.len() {
            assert(w.manifests[i] == d);
            assert(w.manifests.contains(d));
        }
        assert(leads_to(doc_parts(world), root, d));
    }
    lemma_distinct_fit(more, closure);
}

/// What follows a walk is nearer than the reading before it.
proof fn lemma_walk_is_nearer(
    job: TagJobView,
    root: Seq<char>,
    closure: Seq<Seq<char>>,
    w: WalkView,
    far: nat,
)
    requires
        left_over(closure.len() as int, w.manifests.len() as int) < far,
    ensures
        is_nearer(distance(closure, walk_on(job, root, w).0), (2, far)),
{
    lemma_manifests_stay(w);
}

/// Every step that is told what is so brings a copy nearer to its end, where the
/// root manifest leads to finitely many manifests.
pub proof fn law_every_step_brings_the_end_nearer(
    t: CopyTargetView,
    job: TagJobView,
    world: CopyWorld,
    root: Seq<char>,
    closure: Seq<Seq<char>>,
    s: CopyStateView,
    e: CopyEventView,
)
    requires
        copy_is_due(t, job, world, root),
        lists_closure(world, root, closure),
        copy_holds(t, job, world, s),
        answers(s, e),
        is_true(world, s, e),
    ensures
        is_nearer(distance(closure, copy_next(t, job, s, e).0), distance(closure, s)),
{
    match s {
        CopyStateView::Tag => {
            lemma_walk_is_nearer(job, root, closure, walk_from(root), closure.len() + 1);
        },
        CopyStateView::Dest { root: r } => {
            lemma_walk_is_nearer(job, r, closure, walk_from(r), closure.len() + 1);
        },
        CopyStateView::Manifest { root: r, walk, digest } => {
            lemma_room(world, r, closure, walk, digest);
            if let Some(j) = e->Manifest_0 {
                lemma_walk_is_nearer(
                    job,
                    r,
                    closure,
                    fed(walk, digest, parts_of(j)),
                    distance(closure, s).1,
                );
            }
        },
        _ => {},
    }
}

/// What a state awaits, told as it is.
pub open spec fn true_answer(world: CopyWorld, s: CopyStateView) -> CopyEventView {
    match s {
        CopyStateView::Tag => CopyEventView::Tag(world.tag),
        CopyStateView::Dest { root: _ } => CopyEventView::Dest(world.taken),
        CopyStateView::Manifest { root: _, walk: _, digest } => CopyEventView::Manifest(
            (world.docs)(digest),
        ),
        CopyStateView::Write { root: _, steps, at, found: _ } => if steps[at] is DeleteTag {
            CopyEventView::Deleted
        } else {
            CopyEventView::Copied(true)
        },
        _ => CopyEventView::Begin,
    }
}

/// The state after one event more.
proof fn lemma_run_more(
    t: CopyTargetView,
    job: TagJobView,
    world: CopyWorld,
    events: Seq<CopyEventView>,
    e: CopyEventView,
)
    requires
        run_fits(t, job, events),
        run_is_true(t, job, world, events),
        answers(copy_run(t, job, events).0, e),
        is_true(world, copy_run(t, job, events).0, e),
    ensures
        run_fits(t, job, events.push(e)),
        run_is_true(t, job, world, events.push(e)),
        copy_run(t, job, events.push(e)).0 == copy_next(t, job, copy_run(t, job, events).0, e).0,
        copy_run(t, job, events.push(e)).1 == copy_run(t, job, events).1.push(
            copy_next(t, job, copy_run(t, job, events).0, e).1,
        ),
{
    assert(events.push(e).drop_last() =~= events);
    assert(events.push(e).last() == e);
}

/// A copy that came to its end without a refusal is done.
proof fn lemma_end_is_done(
    t: CopyTargetView,
    job: TagJobView,
    world: CopyWorld,
    root: Seq<char>,
    events: Seq<CopyEventView>,
)
    requires
        copy_is_due(t, job, world, root),
        run_fits(t, job, events),
        run_is_true(t, job, world, events),
        copy_run(t, job, events).0 is Finished,
    ensures
        copy_run(t, job, events).1.len() > 0,
        copy_run(t, job, events).1.last() is Done,
{
    let rest = events.drop_last();
    let (s, actions) = copy_run(t, job, rest);
    law_copy_run(t, job, world, rest);
    law_copy_writes_after_all_checks(t, job, world, s, events.last());
    let (next, a) = copy_next(t, job, s, events.last());
    assert(copy_run(t, job, events).1.last() == a);
    if let CopyActionView::Fail(x) = a {
        law_due_copy_is_not_refused(t, job, world, root, x);
    }
}

/// A run that is told what is so ends with a copy that is done.
pub open spec fn reaches_end(
    t: CopyTargetView,
    job: TagJobView,
    world: CopyWorld,
    events: Seq<CopyEventView>,
) -> bool {
    let (s, actions) = copy_run(t, job, events);
    &&& run_fits(t, job, events)
    &&& run_is_true(t, job, world, events)
    &&& s is Finished
    &&& actions.len() > 0 && actions.last() is Done
}

/// A copy that nothing stands against comes to its end: where the root manifest
/// leads to finitely many manifests, every run that is told what is so can be
/// continued until it is done.
pub proof fn law_due_copy_is_done(
    t: CopyTargetView,
    job: TagJobView,
    world: CopyWorld,
    root: Seq<char>,
    closure: Seq<Seq<char>>,
    events: Seq<CopyEventView>,
)
    requires
        copy_is_due(t, job, world, root),
        lists_closure(world, root, closure),
        run_fits(t, job, events),
        run_is_true(t, job, world, events),
    ensures
        exists|more: Seq<CopyEventView>| #[trigger] reaches_end(t, job, world, events + more),
    decreases
        distance(closure, copy_run(t, job, events).0).0,
        distance(closure, copy_run(t, job, events).0).1,
{
    let s = copy_run(t, job, events).0;
    if s is Finished {
        lemma_end_is_done(t, job, world, root, events);
        assert(events + Seq::<CopyEventView>::empty() =~= events);
        assert(reaches_end(t, job, world, events + Seq::<CopyEventView>::empty()));
    } else {
        let e = true_answer(world, s);
        law_copy_run(t, job, world, events);
        assert(answers(s, e));
        assert(is_true(world, s, e));
        law_every_step_brings_the_end_nearer(t, job, world, root, closure, s, e);
        lemma_run_more(t, job, world, events, e);
        law_due_copy_is_done(t, job, world, root, closure, events.push(e));
        let rest = choose|more: Seq<CopyEventView>| #[trigger]
            reaches_end(t, job, world, events.push(e) + more);
        assert(events.push(e) + rest =~= events + (seq![e] + rest));
        assert(reaches_end(t, job, world, events + (seq![e] + rest)));
    }
}

} // verus!
