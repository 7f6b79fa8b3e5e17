//! Moving a helm chart version, step by step.
//!
//! The caller performs one action at a time and hands back what came of it. The
//! source record is checked first, then the destination is looked at; only after
//! that is the record written, and the source record of a move is deleted after
//! the copy.
use crate::error::{DepotError, DepotErrorView};
use crate::helm::promote::{
    chart_check, chart_file, chart_path, chart_taken, check_chart, check_chart_collision, finish_of,
    move_finish, MoveFinish, MoveFinishView,
};
use crate::seqs::push_item;
use crate::service::promote::{CopyTarget, CopyTargetView};
use crate::service::records::{ArtifactRecord, ArtifactRecordView};
use vstd::prelude::*;

verus! {

/// Which chart version is copied, and how.
#[derive(Debug, Clone, Copy)]
pub struct ChartJob<'a> {
    pub name: &'a str,
    pub version: &'a str,
    /// Delete the source record after the copy.
    pub delete_source: bool,
    /// Replace a chart that the destination has already.
    pub overwrite: bool,
}

/// The contents of a [`ChartJob`].
#[verifier::ext_equal]
pub struct ChartJobView {
    pub name: Seq<char>,
    pub version: Seq<char>,
    pub delete_source: bool,
    pub overwrite: bool,
}

impl<'a> DeepView for ChartJob<'a> {
    type V = ChartJobView;

    open spec fn deep_view(&self) -> ChartJobView {
        ChartJobView {
            name: self.name@,
            version: self.version@,
            delete_source: self.delete_source,
            overwrite: self.overwrite,
        }
    }
}

/// One writing step of a move.
#[derive(Debug, PartialEq, Eq)]
pub enum ChartStep {
    /// Copy the record at this path.
    Copy(String),
    /// Delete the record at this path of the source repository.
    DeleteSource(String),
}

/// The contents of a [`ChartStep`].
#[verifier::ext_equal]
pub enum ChartStepView {
    Copy(Seq<char>),
    DeleteSource(Seq<char>),
}

impl DeepView for ChartStep {
    type V = ChartStepView;

    open spec fn deep_view(&self) -> ChartStepView {
        match self {
            ChartStep::Copy(p) => ChartStepView::Copy(p@),
            ChartStep::DeleteSource(p) => ChartStepView::DeleteSource(p@),
        }
    }
}

/// The writing steps of a move: the copy, and after it the deletion of the source
/// record, where that is asked for.
pub open spec fn steps_of(name: Seq<char>, version: Seq<char>, delete_source: bool) -> Seq<
    ChartStepView,
> {
    let copy = seq![ChartStepView::Copy(chart_file(name, version))];
    if delete_source {
        copy.push(ChartStepView::DeleteSource(chart_file(name, version)))
    } else {
        copy
    }
}

/// The writing steps of a move.
pub fn chart_steps(name: &str, version: &str, delete_source: bool) -> (r: Vec<ChartStep>)
    ensures
        r.deep_view() == steps_of(name@, version@, delete_source),
{
    let mut out: Vec<ChartStep> = Vec::new();
    assert(out.deep_view() =~= Seq::<ChartStepView>::empty());
    push_item(&mut out, ChartStep::Copy(chart_path(name, version)));
    assert(out.deep_view() =~= steps_of(name@, version@, false));
    if delete_source {
        push_item(&mut out, ChartStep::DeleteSource(chart_path(name, version)));
    }
    out
}

/// How far a move has come: what is awaited.
#[derive(Debug)]
pub enum MoveState {
    /// Nothing was asked yet.
    Start,
    /// The record in the source repository.
    Source,
    /// Whether the destination has the chart.
    Dest,
    /// The end of a writing step.
    Write { steps: Vec<ChartStep>, at: usize, copied: bool, deleted: bool },
    /// Nothing more.
    Finished,
}

/// The contents of a [`MoveState`].
#[verifier::ext_equal]
pub enum MoveStateView {
    Start,
    Source,
    Dest,
    Write { steps: Seq<ChartStepView>, at: int, copied: bool, deleted: bool },
    Finished,
}

impl DeepView for MoveState {
    type V = MoveStateView;

    open spec fn deep_view(&self) -> MoveStateView {
        match self {
            MoveState::Start => MoveStateView::Start,
            MoveState::Source => MoveStateView::Source,
            MoveState::Dest => MoveStateView::Dest,
            MoveState::Write { steps, at, copied, deleted } => MoveStateView::Write {
                steps: steps.deep_view(),
                at: *at as int,
                copied: *copied,
                deleted: *deleted,
            },
            MoveState::Finished => MoveStateView::Finished,
        }
    }
}

/// What came of an action.
#[derive(Debug)]
pub enum MoveEvent {
    /// Begin.
    Begin,
    /// The record at the chart's path in the source repository.
    Source(Option<ArtifactRecord>),
    /// Whether the destination has a record at the chart's path.
    Dest(bool),
    /// The record was copied, or there was none.
    Copied(bool),
    /// The source record was deleted, or there was none.
    Deleted(bool),
}

/// The contents of a [`MoveEvent`].
#[verifier::ext_equal]
pub enum MoveEventView {
    Begin,
    Source(Option<ArtifactRecordView>),
    Dest(bool),
    Copied(bool),
    Deleted(bool),
}

impl DeepView for MoveEvent {
    type V = MoveEventView;

    open spec fn deep_view(&self) -> MoveEventView {
        match self {
            MoveEvent::Begin => MoveEventView::Begin,
            MoveEvent::Source(r) => MoveEventView::Source(r.deep_view()),
            MoveEvent::Dest(b) => MoveEventView::Dest(*b),
            MoveEvent::Copied(b) => MoveEventView::Copied(*b),
            MoveEvent::Deleted(b) => MoveEventView::Deleted(*b),
        }
    }
}

/// What to do next.
#[derive(Debug, PartialEq, Eq)]
pub enum MoveAction {
    /// Read the record at this path of the source repository.
    ReadSource(String),
    /// Look whether the destination has a record at this path.
    ReadDest(String),
    /// Copy the record at this path.
    Copy(String),
    /// Delete the record at this path of the source repository.
    DeleteSource(String),
    /// The move is done; stored indexes may have to be marked as stale.
    Done(MoveFinish),
    /// The move is refused; nothing was written.
    Fail(DepotError),
}

/// The contents of a [`MoveAction`].
#[verifier::ext_equal]
pub enum MoveActionView {
    ReadSource(Seq<char>),
    ReadDest(Seq<char>),
    Copy(Seq<char>),
    DeleteSource(Seq<char>),
    Done(MoveFinishView),
    Fail(DepotErrorView),
}

impl DeepView for MoveAction {
    type V = MoveActionView;

    open spec fn deep_view(&self) -> MoveActionView {
        match self {
            MoveAction::ReadSource(p) => MoveActionView::ReadSource(p@),
            MoveAction::ReadDest(p) => MoveActionView::ReadDest(p@),
            MoveAction::Copy(p) => MoveActionView::Copy(p@),
            MoveAction::DeleteSource(p) => MoveActionView::DeleteSource(p@),
            MoveAction::Done(f) => MoveActionView::Done(f.deep_view()),
            MoveAction::Fail(e) => MoveActionView::Fail(e.deep_view()),
        }
    }
}

/// An event answers what a state awaits.
pub open spec fn replies(s: MoveStateView, e: MoveEventView) -> bool {
    match s {
        MoveStateView::Start => e is Begin,
        MoveStateView::Source => e is Source,
        MoveStateView::Dest => e is Dest,
        MoveStateView::Write { steps, at, copied: _, deleted: _ } => 0 <= at < steps.len() && (
        match steps[at] {
            ChartStepView::Copy(_) => e is Copied,
            ChartStepView::DeleteSource(_) => e is Deleted,
        }),
        MoveStateView::Finished => false,
    }
}

/// The writing step at a position, or the end.
pub open spec fn writes_on(
    job: ChartJobView,
    steps: Seq<ChartStepView>,
    at: int,
    copied: bool,
    deleted: bool,
) -> (MoveStateView, MoveActionView) {
    if 0 <= at < steps.len() {
        (
            MoveStateView::Write { steps, at, copied, deleted },
            match steps[at] {
                ChartStepView::Copy(p) => MoveActionView::Copy(p),
                ChartStepView::DeleteSource(p) => MoveActionView::DeleteSource(p),
            },
        )
    } else {
        (
            MoveStateView::Finished,
            MoveActionView::Done(finish_of(job.name, job.version, copied, deleted)),
        )
    }
}

/// The first writing step.
pub open spec fn writes_begin(job: ChartJobView) -> (MoveStateView, MoveActionView) {
    writes_on(job, steps_of(job.name, job.version, job.delete_source), 0, false, false)
}

/// The step after an event that answers what the state awaits.
pub open spec fn move_next(
    t: CopyTargetView,
    job: ChartJobView,
    s: MoveStateView,
    e: MoveEventView,
) -> (MoveStateView, MoveActionView) {
    match (s, e) {
        (MoveStateView::Start, MoveEventView::Begin) => (
            MoveStateView::Source,
            MoveActionView::ReadSource(chart_file(job.name, job.version)),
        ),
        (MoveStateView::Source, MoveEventView::Source(rec)) => match chart_check(
            t,
            job.name,
            job.version,
            rec,
        ) {
            Err(x) => (MoveStateView::Finished, MoveActionView::Fail(x)),
            Ok(_) => if job.overwrite {
                writes_begin(job)
            } else {
                (
                    MoveStateView::Dest,
                    MoveActionView::ReadDest(chart_file(job.name, job.version)),
                )
            },
        },
        (MoveStateView::Dest, MoveEventView::Dest(taken)) => if taken {
            (
                MoveStateView::Finished,
                MoveActionView::Fail(chart_taken(t, job.name, job.version)),
            )
        } else {
            writes_begin(job)
        },
        (
            MoveStateView::Write { steps, at, copied: _, deleted },
            MoveEventView::Copied(b),
        ) => writes_on(job, steps, at + 1, b, deleted),
        (
            MoveStateView::Write { steps, at, copied, deleted: _ },
            MoveEventView::Deleted(b),
        ) => writes_on(job, steps, at + 1, copied, b),
        _ => (
            MoveStateView::Finished,
            MoveActionView::Fail(DepotErrorView::Internal("nothing is awaited"@)),
        ),
    }
}

/// Whether an event answers what a state awaits.
pub fn is_reply(state: &MoveState, event: &MoveEvent) -> (r: bool)
    ensures
        r == replies(state.deep_view(), event.deep_view()),
{
    match state {
        MoveState::Start => matches!(event, MoveEvent::Begin),
        MoveState::Source => matches!(event, MoveEvent::Source(_)),
        MoveState::Dest => matches!(event, MoveEvent::Dest(_)),
        MoveState::Write { steps, at, copied: _, deleted: _ } => {
            if *at >= steps.len() {
                return false;
            }
            assert(steps.deep_view()[*at as int] == steps@[*at as int].deep_view());
            match &steps[*at] {
                ChartStep::Copy(_) => matches!(event, MoveEvent::Copied(_)),
                ChartStep::DeleteSource(_) => matches!(event, MoveEvent::Deleted(_)),
            }
        },
        MoveState::Finished => false,
    }
}

/// The writing step at a position, or the end.
fn write_step(
    job: &ChartJob,
    steps: Vec<ChartStep>,
    at: usize,
    copied: bool,
    deleted: bool,
) -> (r: (MoveState, MoveAction))
    ensures
        (r.0.deep_view(), r.1.deep_view()) == writes_on(
            job.deep_view(),
            steps.deep_view(),
            at as int,
            copied,
            deleted,
        ),
{
    if at < steps.len() {
        assert(steps.deep_view()[at as int] == steps@[at as int].deep_view());
        let action = match &steps[at] {
            ChartStep::Copy(p) => MoveAction::Copy(p.clone()),
            ChartStep::DeleteSource(p) => MoveAction::DeleteSource(p.clone()),
        };
        (MoveState::Write { steps, at, copied, deleted }, action)
    } else {
        let end = move_finish(job.name, job.version, copied, deleted);
        (MoveState::Finished, MoveAction::Done(end))
    }
}

/// The first writing step.
fn first_step(job: &ChartJob) -> (r: (MoveState, MoveAction))
    ensures
        (r.0.deep_view(), r.1.deep_view()) == writes_begin(job.deep_view()),
{
    let steps = chart_steps(job.name, job.version, job.delete_source);
    write_step(job, steps, 0, false, false)
}

/// The next step of copying, or moving, a chart version, after an event that
/// answers what the state awaits.
pub fn move_chart(t: &CopyTarget, job: &ChartJob, state: MoveState, event: MoveEvent) -> (r: (
    MoveState,
    MoveAction,
))
    requires
        replies(state.deep_view(), event.deep_view()),
    ensures
        (r.0.deep_view(), r.1.deep_view()) == move_next(
            t.deep_view(),
            job.deep_view(),
            state.deep_view(),
            event.deep_view(),
        ),
{
    match state {
        MoveState::Start => (
            MoveState::Source,
            MoveAction::ReadSource(chart_path(job.name, job.version)),
        ),
        MoveState::Source => {
            let rec = match event {
                MoveEvent::Source(r) => r,
                _ => None,
            };
            match check_chart(t, job.name, job.version, rec.as_ref()) {
                Err(e) => (MoveState::Finished, MoveAction::Fail(e)),
                Ok(()) => if job.overwrite {
                    first_step(job)
                } else {
                    (MoveState::Dest, MoveAction::ReadDest(chart_path(job.name, job.version)))
                },
            }
        },
        MoveState::Dest => {
            let taken = match event {
                MoveEvent::Dest(b) => b,
                _ => true,
            };
            match check_chart_collision(t, job.name, job.version, false, taken) {
                Err(e) => (MoveState::Finished, MoveAction::Fail(e)),
                Ok(()) => first_step(job),
            }
        },
        MoveState::Write { steps, at, copied, deleted } => {
            assert(at < steps.len());
            match event {
                MoveEvent::Copied(b) => write_step(job, steps, at + 1, b, deleted),
                MoveEvent::Deleted(b) => write_step(job, steps, at + 1, copied, b),
                _ => write_step(job, steps, at, copied, deleted),
            }
        },
        MoveState::Finished => (
            MoveState::Finished,
            MoveAction::Fail(DepotError::Internal("nothing is awaited".to_string())),
        ),
    }
}

/// The state and the actions of a move after some events.
pub open spec fn move_run(
    t: CopyTargetView,
    job: ChartJobView,
    events: Seq<MoveEventView>,
) -> (MoveStateView, Seq<MoveActionView>)
    decreases events.len(),
{
    if events.len() == 0 {
        (MoveStateView::Start, Seq::empty())
    } else {
        let (s, actions) = move_run(t, job, events.drop_last());
        let (next, a) = move_next(t, job, s, events.last());
        (next, actions.push(a))
    }
}

/// What a move is told: the source record, whether the destination has the chart
/// where that is asked, whether the record was copied, and whether the source
/// record was deleted where that is asked.
pub open spec fn move_events(
    job: ChartJobView,
    rec: Option<ArtifactRecordView>,
    copied: bool,
    deleted: bool,
) -> Seq<MoveEventView> {
    let head = seq![MoveEventView::Begin, MoveEventView::Source(rec)];
    let checked = if job.overwrite {
        head
    } else {
        head.push(MoveEventView::Dest(false))
    };
    let written = checked.push(MoveEventView::Copied(copied));
    if job.delete_source {
        written.push(MoveEventView::Deleted(deleted))
    } else {
        written
    }
}

/// What a move does: read the source record, look at the destination unless it
/// may be overwritten, copy, delete the source record where that is asked for, and
/// end.
pub open spec fn move_actions(job: ChartJobView, copied: bool, deleted: bool) -> Seq<
    MoveActionView,
> {
    let path = chart_file(job.name, job.version);
    let head = seq![MoveActionView::ReadSource(path)];
    let checked = if job.overwrite {
        head
    } else {
        head.push(MoveActionView::ReadDest(path))
    };
    let copy = checked.push(MoveActionView::Copy(path));
    let written = if job.delete_source {
        copy.push(MoveActionView::DeleteSource(path))
    } else {
        copy
    };
    written.push(
        MoveActionView::Done(
            finish_of(job.name, job.version, copied, job.delete_source && deleted),
        ),
    )
}

/// One event more is one action more.
proof fn lemma_run_step(
    t: CopyTargetView,
    job: ChartJobView,
    events: Seq<MoveEventView>,
    e: MoveEventView,
)
    ensures
        ({
            let (s, actions) = move_run(t, job, events);
            let (next, a) = move_next(t, job, s, e);
            move_run(t, job, events.push(e)) == (next, actions.push(a))
        }),
{
    assert(events.push(e).drop_last() =~= events);
    assert(events.push(e).last() == e);
}

/// A chart of the source repository that the destination lacks, or may lose, is
/// copied, and its source record is deleted exactly where that is asked for, after
/// the copy. A stored index is stale exactly where the charts of its repository
/// changed.
pub proof fn law_chart_is_moved(
    t: CopyTargetView,
    job: ChartJobView,
    rec: Option<ArtifactRecordView>,
    copied: bool,
    deleted: bool,
)
    requires
        chart_check(t, job.name, job.version, rec) is Ok,
    ensures
        move_run(t, job, move_events(job, rec, copied, deleted)) == (
            MoveStateView::Finished,
            move_actions(job, copied, deleted),
        ),
{
    let none = Seq::<MoveEventView>::empty();
    let begun = none.push(MoveEventView::Begin);
    let head = begun.push(MoveEventView::Source(rec));
    assert(head =~= seq![MoveEventView::Begin, MoveEventView::Source(rec)]);
    lemma_run_step(t, job, none, MoveEventView::Begin);
    lemma_run_step(t, job, begun, MoveEventView::Source(rec));
    let checked = if job.overwrite {
        head
    } else {
        head.push(MoveEventView::Dest(false))
    };
    if !job.overwrite {
        lemma_run_step(t, job, head, MoveEventView::Dest(false));
    }
    lemma_run_step(t, job, checked, MoveEventView::Copied(copied));
    if job.delete_source {
        lemma_run_step(
            t,
            job,
            checked.push(MoveEventView::Copied(copied)),
            MoveEventView::Deleted(deleted),
        );
    }
    assert(move_run(t, job, move_events(job, rec, copied, deleted)).1 =~= move_actions(
        job,
        copied,
        deleted,
    ));
}

/// A chart that is not there, or a record that is no chart, is refused before the
/// destination is looked at.
pub proof fn law_missing_chart_is_refused(
    t: CopyTargetView,
    job: ChartJobView,
    rec: Option<ArtifactRecordView>,
    e: DepotErrorView,
)
    requires
        chart_check(t, job.name, job.version, rec) == Err::<(), DepotErrorView>(e),
    ensures
        move_run(t, job, seq![MoveEventView::Begin, MoveEventView::Source(rec)]) == (
            MoveStateView::Finished,
            seq![
                MoveActionView::ReadSource(chart_file(job.name, job.version)),
                MoveActionView::Fail(e),
            ],
        ),
{
    let none = Seq::<MoveEventView>::empty();
    let begun = none.push(MoveEventView::Begin);
    lemma_run_step(t, job, none, MoveEventView::Begin);
    lemma_run_step(t, job, begun, MoveEventView::Source(rec));
    let events = seq![MoveEventView::Begin, MoveEventView::Source(rec)];
    assert(begun.push(MoveEventView::Source(rec)) =~= events);
    assert(move_run(t, job, events).1 =~= seq![
        MoveActionView::ReadSource(chart_file(job.name, job.version)),
        MoveActionView::Fail(e),
    ]);
}

/// A chart that the destination has, and may not lose, is refused with nothing
/// written.
pub proof fn law_taken_chart_is_refused(
    t: CopyTargetView,
    job: ChartJobView,
    rec: Option<ArtifactRecordView>,
)
    requires
        chart_check(t, job.name, job.version, rec) is Ok,
        !job.overwrite,
    ensures
        move_run(
            t,
            job,
            seq![
                MoveEventView::Begin,
                MoveEventView::Source(rec),
                MoveEventView::Dest(true),
            ],
        ) == (
            MoveStateView::Finished,
            seq![
                MoveActionView::ReadSource(chart_file(job.name, job.version)),
                MoveActionView::ReadDest(chart_file(job.name, job.version)),
                MoveActionView::Fail(chart_taken(t, job.name, job.version)),
            ],
        ),
{
    let none = Seq::<MoveEventView>::empty();
    let begun = none.push(MoveEventView::Begin);
    let head = begun.push(MoveEventView::Source(rec));
    lemma_run_step(t, job, none, MoveEventView::Begin);
    lemma_run_step(t, job, begun, MoveEventView::Source(rec));
    lemma_run_step(t, job, head, MoveEventView::Dest(true));
    let events = seq![
        MoveEventView::Begin,
        MoveEventView::Source(rec),
        MoveEventView::Dest(true),
    ];
    assert(head.push(MoveEventView::Dest(true)) =~= events);
    assert(move_run(t, job, events).1 =~= seq![
        MoveActionView::ReadSource(chart_file(job.name, job.version)),
        MoveActionView::ReadDest(chart_file(job.name, job.version)),
        MoveActionView::Fail(chart_taken(t, job.name, job.version)),
    ]);
}

/// Each event of a run answers what was awaited.
pub open spec fn run_replies(
    t: CopyTargetView,
    job: ChartJobView,
    events: Seq<MoveEventView>,
) -> bool
    decreases events.len(),
{
    events.len() == 0 || (run_replies(t, job, events.drop_last()) && replies(
        move_run(t, job, events.drop_last()).0,
        events.last(),
    ))
}

/// An action writes or deletes something.
pub open spec fn is_change(a: MoveActionView) -> bool {
    a is Copy || a is DeleteSource
}

/// Nothing of a list of actions writes or deletes something.
pub open spec fn no_change(actions: Seq<MoveActionView>) -> bool {
    forall|i: int| 0 <= i < actions.len() ==> !is_change(#[trigger] actions[i])
}

/// No action of a list refuses the move.
pub open spec fn no_refusal(actions: Seq<MoveActionView>) -> bool {
    forall|i: int| 0 <= i < actions.len() ==> !((#[trigger] actions[i]) is Fail)
}

/// Whatever came of its actions, a move that is refused changes nothing, and one
/// that has begun to write is not refused any more.
pub proof fn law_refused_move_changes_nothing(
    t: CopyTargetView,
    job: ChartJobView,
    events: Seq<MoveEventView>,
)
    requires
        run_replies(t, job, events),
    ensures
        ({
            let (s, actions) = move_run(t, job, events);
            &&& no_change(actions) || no_refusal(actions)
            &&& s is Write ==> no_refusal(actions)
            &&& !(s is Write) && !(s is Finished) ==> no_change(actions) && no_refusal(actions)
        }),
    decreases events.len(),
{
    if events.len() > 0 {
        let rest = events.drop_last();
        law_refused_move_changes_nothing(t, job, rest);
        let (s, actions) = move_run(t, job, rest);
        let (next, a) = move_next(t, job, s, events.last());
        let more = actions.push(a);
        assert(move_run(t, job, events) == (next, more));
        if no_change(actions) && !is_change(a) {
            assert(no_change(more));
        }
        if no_refusal(actions) && !(a is Fail) {
            assert(no_refusal(more));
        }
    }
}

} // verus!
