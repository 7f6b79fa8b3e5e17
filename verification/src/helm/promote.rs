//! Copying and moving a helm chart version between repositories.
//!
//! A chart version is one record. A move deletes the source record after the
//! copy, and marks the stored index of every repository whose charts changed as
//! stale.
use crate::error::{DepotError, DepotErrorView};
use crate::seqs::result_view;
use crate::service::promote::{removal_delta, signed, CopyTarget, CopyTargetView};
use crate::service::records::{ArtifactKind, ArtifactRecord, ArtifactRecordView};
use vstd::prelude::*;

verus! {

/// What came of moving a chart.
#[derive(Debug, Clone, PartialEq, Eq)]
pub struct MoveOutcome {
    /// The path of the chart record.
    pub chart_path: String,
    /// Number of records written to the destination: none or one.
    pub copied_records: u64,
    /// Whether the source record was removed.
    pub source_deleted: bool,
}

/// The contents of a [`MoveOutcome`].
#[verifier::ext_equal]
pub struct MoveOutcomeView {
    pub chart_path: Seq<char>,
    pub copied_records: u64,
    pub source_deleted: bool,
}

impl DeepView for MoveOutcome {
    type V = MoveOutcomeView;

    open spec fn deep_view(&self) -> MoveOutcomeView {
        MoveOutcomeView {
            chart_path: self.chart_path@,
            copied_records: self.copied_records,
            source_deleted: self.source_deleted,
        }
    }
}

/// The name and the version of a chart, as one text.
pub open spec fn chart_label(name: Seq<char>, version: Seq<char>) -> Seq<char> {
    name + "-"@ + version
}

/// The path of a chart record.
pub open spec fn chart_file(name: Seq<char>, version: Seq<char>) -> Seq<char> {
    chart_label(name, version) + ".tgz"@
}

/// The path of a chart record.
pub fn chart_path(name: &str, version: &str) -> (r: String)
    ensures
        r@ == chart_file(name@, version@),
{
    let mut p = name.to_string();
    p.append("-");
    p.append(version);
    p.append(".tgz");
    p
}

/// Whether the record at a chart's path can be copied, and if not, why.
pub open spec fn chart_check(
    t: CopyTargetView,
    name: Seq<char>,
    version: Seq<char>,
    rec: Option<ArtifactRecordView>,
) -> Result<(), DepotErrorView> {
    match rec {
        None => Err(
            DepotErrorView::NotFound(
                "chart '"@ + name + "-"@ + version + "' not found in repository '"@ + t.source_repo
                    + "'"@,
            ),
        ),
        Some(r) => if r.kind is HelmChart {
            Ok(())
        } else {
            Err(
                DepotErrorView::DataIntegrity(
                    "record at '"@ + chart_file(name, version) + "' in '"@ + t.source_repo
                        + "' is not a Helm chart"@,
                ),
            )
        },
    }
}

/// Check the record at a chart's path in the source repository.
pub fn check_chart(
    t: &CopyTarget,
    name: &str,
    version: &str,
    rec: Option<&ArtifactRecord>,
) -> (r: Result<(), DepotError>)
    ensures
        result_view(r) == chart_check(t.deep_view(), name@, version@, rec.deep_view()),
{
    let rec = match rec {
        Some(r) => r,
        None => {
            let mut m = "chart '".to_string();
            m.append(name);
            m.append("-");
            m.append(version);
            m.append("' not found in repository '");
            m.append(t.source_repo);
            m.append("'");
            return Err(DepotError::NotFound(m));
        },
    };
    match &rec.kind {
        ArtifactKind::HelmChart { name: _, version: _ } => Ok(()),
        _ => {
            let path = chart_path(name, version);
            let mut m = "record at '".to_string();
            m.append(path.as_str());
            m.append("' in '");
            m.append(t.source_repo);
            m.append("' is not a Helm chart");
            Err(DepotError::DataIntegrity(m))
        },
    }
}

/// The error for a chart that the destination has already.
pub open spec fn chart_taken(
    t: CopyTargetView,
    name: Seq<char>,
    version: Seq<char>,
) -> DepotErrorView {
    DepotErrorView::Conflict(
        "chart '"@ + name + "-"@ + version + "' already exists in repository '"@ + t.dest_repo
            + "' (set overwrite to replace)"@,
    )
}

/// Refuse to replace a chart of the destination, unless told to.
pub fn check_chart_collision(
    t: &CopyTarget,
    name: &str,
    version: &str,
    overwrite: bool,
    taken: bool,
) -> (r: Result<(), DepotError>)
    ensures
        result_view(r) == if taken && !overwrite {
            Err::<(), DepotErrorView>(chart_taken(t.deep_view(), name@, version@))
        } else {
            Ok(())
        },
{
    if taken && !overwrite {
        let mut m = "chart '".to_string();
        m.append(name);
        m.append("-");
        m.append(version);
        m.append("' already exists in repository '");
        m.append(t.dest_repo);
        m.append("' (set overwrite to replace)");
        return Err(DepotError::Conflict(m));
    }
    Ok(())
}

/// The end of a move: the repositories whose stored index is stale, and the
/// outcome.
#[derive(Debug, PartialEq, Eq)]
pub struct MoveFinish {
    pub dest_stale: bool,
    pub source_stale: bool,
    pub outcome: MoveOutcome,
}

/// The contents of a [`MoveFinish`].
#[verifier::ext_equal]
pub struct MoveFinishView {
    pub dest_stale: bool,
    pub source_stale: bool,
    pub outcome: MoveOutcomeView,
}

impl DeepView for MoveFinish {
    type V = MoveFinishView;

    open spec fn deep_view(&self) -> MoveFinishView {
        MoveFinishView {
            dest_stale: self.dest_stale,
            source_stale: self.source_stale,
            outcome: self.outcome.deep_view(),
        }
    }
}

/// The end of a move: `copied` tells whether the record was found and written,
/// `source_deleted` whether the source record was there to be removed. The index
/// of a repository is stale where its charts changed.
pub open spec fn finish_of(
    name: Seq<char>,
    version: Seq<char>,
    copied: bool,
    source_deleted: bool,
) -> MoveFinishView {
    MoveFinishView {
        dest_stale: copied,
        source_stale: source_deleted,
        outcome: MoveOutcomeView {
            chart_path: chart_file(name, version),
            copied_records: if copied {
                1
            } else {
                0
            },
            source_deleted,
        },
    }
}

/// The end of a move.
pub fn move_finish(name: &str, version: &str, copied: bool, source_deleted: bool) -> (r: MoveFinish)
    ensures
        r.deep_view() == finish_of(name@, version@, copied, source_deleted),
{
    let copied_records: u64 = if copied {
        1
    } else {
        0
    };
    MoveFinish {
        dest_stale: copied,
        source_stale: source_deleted,
        outcome: MoveOutcome { chart_path: chart_path(name, version), copied_records, source_deleted },
    }
}

/// The counters of the directory to move after a chart record was deleted: `None`
/// where there was no chart. The stored index is stale exactly where there was
/// one.
pub fn delete_chart(old: Option<&ArtifactRecord>) -> (r: Option<(i64, i64)>)
    requires
        old matches Some(rec) ==> rec.size != 0x8000_0000_0000_0000,
    ensures
        r is Some <==> old is Some,
        r matches Some(d) ==> d.0 == -1 && d.1 == -signed(old->Some_0.size),
{
    match old {
        Some(rec) => Some(removal_delta(rec.size)),
        None => None,
    }
}

} // verus!
