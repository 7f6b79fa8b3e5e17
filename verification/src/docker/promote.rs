//! Copying and moving a docker tag between repositories.
//!
//! A tag is copied with its manifest closure: the references to configs and
//! layers first, then the manifests, then the tag, so that the destination never
//! holds a tag without its image. A move deletes the source tag afterwards and
//! nothing else; what no tag refers to any more is left to the collector.
use crate::docker::closure::{ClosureWalk, WalkView};
use crate::docker::paths::{
    blob_ref_path, blob_ref_path_for, manifest_path, manifest_path_for, tag_path, tag_path_for,
};
use crate::error::{DepotError, DepotErrorView};
use crate::ordered::TextKey;
use crate::seqs::{lemma_filter_step, lemma_map_step, lemma_take_all, push_item, result_view};
use crate::service::promote::{removal_delta, signed, CopyTarget, CopyTargetView};
use crate::service::records::{
    blob_of, ArtifactKind, ArtifactKindView, ArtifactRecord, ArtifactRecordView,
};
use vstd::prelude::*;

verus! {

/// What came of copying a tag.
#[derive(Debug, Clone, PartialEq, Eq)]
pub struct PromoteOutcome {
    /// The manifest digest the tag resolved to.
    pub digest: String,
    /// Number of records written to the destination.
    pub copied_records: u64,
}

/// The contents of a [`PromoteOutcome`].
#[verifier::ext_equal]
pub struct PromoteOutcomeView {
    pub digest: Seq<char>,
    pub copied_records: u64,
}

impl DeepView for PromoteOutcome {
    type V = PromoteOutcomeView;

    open spec fn deep_view(&self) -> PromoteOutcomeView {
        PromoteOutcomeView { digest: self.digest@, copied_records: self.copied_records }
    }
}

/// The root manifest of a tag, or why there is none.
pub open spec fn tag_root(
    t: CopyTargetView,
    image: Option<Seq<char>>,
    tag: Seq<char>,
    rec: Option<ArtifactRecordView>,
) -> Result<Seq<char>, DepotErrorView> {
    match rec {
        None => Err(
            DepotErrorView::NotFound(
                "tag '"@ + tag + "' not found in repository '"@ + t.source_repo + "'"@,
            ),
        ),
        Some(r) => match r.kind {
            ArtifactKindView::DockerTag { digest, tag: _ } => Ok(digest),
            _ => Err(
                DepotErrorView::DataIntegrity(
                    "record at '"@ + tag_path(image, tag) + "' in '"@ + t.source_repo
                        + "' is not a Docker tag"@,
                ),
            ),
        },
    }
}

/// Resolve the record at a tag's path to the root manifest.
pub fn resolve_tag(
    t: &CopyTarget,
    image: Option<&str>,
    tag: &str,
    rec: Option<&ArtifactRecord>,
) -> (r: Result<String, DepotError>)
    ensures
        result_view(r) == tag_root(t.deep_view(), image.deep_view(), tag@, rec.deep_view()),
{
    let rec = match rec {
        Some(r) => r,
        None => {
            let mut m = "tag '".to_string();
            m.append(tag);
            m.append("' not found in repository '");
            m.append(t.source_repo);
            m.append("'");
            return Err(DepotError::NotFound(m));
        },
    };
    match &rec.kind {
        ArtifactKind::DockerTag { digest, tag: _ } => Ok(digest.clone()),
        _ => {
            let path = tag_path_for(image, tag);
            let mut m = "record at '".to_string();
            m.append(path.as_str());
            m.append("' in '");
            m.append(t.source_repo);
            m.append("' is not a Docker tag");
            Err(DepotError::DataIntegrity(m))
        },
    }
}

/// The error for a tag that the destination has already.
pub open spec fn tag_taken(t: CopyTargetView, tag: Seq<char>) -> DepotErrorView {
    DepotErrorView::Conflict(
        "tag '"@ + tag + "' already exists in repository '"@ + t.dest_repo
            + "' (set overwrite to replace)"@,
    )
}

/// Refuse to replace a tag of the destination, unless told to.
pub fn check_collision(t: &CopyTarget, tag: &str, overwrite: bool, taken: bool) -> (r: Result<
    (),
    DepotError,
>)
    ensures
        result_view(r) == if taken && !overwrite {
            Err::<(), DepotErrorView>(tag_taken(t.deep_view(), tag@))
        } else {
            Ok(())
        },
{
    if taken && !overwrite {
        let mut m = "tag '".to_string();
        m.append(tag);
        m.append("' already exists in repository '");
        m.append(t.dest_repo);
        m.append("' (set overwrite to replace)");
        return Err(DepotError::Conflict(m));
    }
    Ok(())
}

/// The blob that holds a manifest's text, if there is a record that points at
/// one.
pub fn read_manifest_json(rec: Option<&ArtifactRecord>) -> (r: Option<String>)
    ensures
        r.deep_view() == match rec.deep_view() {
            Some(v) => blob_of(v),
            None => None,
        },
{
    match rec {
        Some(v) => v.blob(),
        None => None,
    }
}

/// One step of copying a tag.
#[derive(Debug, PartialEq, Eq)]
pub enum TagStep {
    /// Copy the record at this path.
    Copy(String),
    /// Delete the tag in the source repository.
    DeleteTag,
}

/// The contents of a [`TagStep`].
#[verifier::ext_equal]
pub enum TagStepView {
    Copy(Seq<char>),
    DeleteTag,
}

impl DeepView for TagStep {
    type V = TagStepView;

    open spec fn deep_view(&self) -> TagStepView {
        match self {
            TagStep::Copy(p) => TagStepView::Copy(p@),
            TagStep::DeleteTag => TagStepView::DeleteTag,
        }
    }
}

/// Copies the reference to a blob.
pub open spec fn blob_step() -> spec_fn(Seq<Seq<char>>) -> TagStepView {
    |k: Seq<Seq<char>>| TagStepView::Copy(blob_ref_path(k[0]))
}

/// Copies a manifest.
pub open spec fn manifest_step(image: Option<Seq<char>>) -> spec_fn(Seq<char>) -> TagStepView {
    |d: Seq<char>| TagStepView::Copy(manifest_path(image, d))
}

/// The copies of a tag and its closure: blobs, then manifests, then the tag.
pub open spec fn tag_copies(w: WalkView, image: Option<Seq<char>>, tag: Seq<char>) -> Seq<
    TagStepView,
> {
    w.blobs.map_values(blob_step()) + w.manifests.map_values(manifest_step(image)) + seq![
        TagStepView::Copy(tag_path(image, tag)),
    ]
}

/// All the steps: a move ends with deleting the source tag.
pub open spec fn tag_steps(
    w: WalkView,
    image: Option<Seq<char>>,
    tag: Seq<char>,
    delete_source: bool,
) -> Seq<TagStepView> {
    if delete_source {
        tag_copies(w, image, tag).push(TagStepView::DeleteTag)
    } else {
        tag_copies(w, image, tag)
    }
}

/// The steps of copying, or moving, a tag whose manifest closure was walked.
pub fn tag_script(walk: &ClosureWalk, image: Option<&str>, tag: &str, delete_source: bool) -> (r: Vec<
    TagStep,
>)
    ensures
        r.deep_view() == tag_steps(walk.deep_view(), image.deep_view(), tag@, delete_source),
{
    let ghost blobs = walk.blobs@;
    let ghost manifests = walk.manifests.deep_view();
    let ghost first = blobs.map_values(blob_step());
    let ghost put = manifest_step(image.deep_view());
    let mut out: Vec<TagStep> = Vec::new();
    let n: usize = walk.blobs.len();
    let mut i: usize = 0;
    assert(out.deep_view() =~= blobs.take(0).map_values(blob_step()));
    while i < n
        invariant
            i <= n,
            n == blobs.len(),
            blobs == walk.blobs@,
            out.deep_view() == blobs.take(i as int).map_values(blob_step()),
        decreases n - i,
    {
        let d = walk.blobs.at(i);
        proof {
            assert(d.parts()[0] == d@);
            lemma_map_step(blobs, blob_step(), i as int);
        }
        push_item(&mut out, TagStep::Copy(blob_ref_path_for(d.as_str())));
        i = i + 1;
    }
    proof {
        lemma_take_all(blobs);
    }
    let mut j: usize = 0;
    assert(out.deep_view() =~= first + manifests.take(0).map_values(put));
    while j < walk.manifests.len()
        invariant
            j <= walk.manifests@.len(),
            manifests == walk.manifests.deep_view(),
            put == manifest_step(image.deep_view()),
            out.deep_view() == first + manifests.take(j as int).map_values(put),
        decreases walk.manifests@.len() - j,
    {
        proof {
            lemma_map_step(manifests, put, j as int);
        }
        push_item(
            &mut out,
            TagStep::Copy(manifest_path_for(image, walk.manifests[j].as_str())),
        );
        assert(out.deep_view() =~= first + manifests.take(j + 1).map_values(put));
        j = j + 1;
    }
    proof {
        lemma_take_all(manifests);
    }
    push_item(&mut out, TagStep::Copy(tag_path_for(image, tag)));
    assert(out.deep_view() =~= tag_copies(walk.deep_view(), image.deep_view(), tag@));
    if delete_source {
        push_item(&mut out, TagStep::DeleteTag);
    }
    out
}

/// Tells a copy that found its record.
pub open spec fn was_found() -> spec_fn(bool) -> bool {
    |b: bool| b
}

/// The outcome of a copy of which each step found its source record or did not.
pub open spec fn outcome_of(digest: Seq<char>, found: Seq<bool>) -> PromoteOutcomeView {
    PromoteOutcomeView { digest, copied_records: found.filter(was_found()).len() as u64 }
}

/// The outcome of a copy of which each step found its source record or did not.
pub fn promote_outcome(digest: String, found: &[bool]) -> (r: PromoteOutcome)
    ensures
        r.deep_view() == outcome_of(digest@, found@),
        r.copied_records == found@.filter(was_found()).len(),
{
    let mut copied: u64 = 0;
    let mut i: usize = 0;
    proof {
        reveal(Seq::filter);
        assert(found@.take(0).filter(was_found()).len() == 0);
    }
    while i < found.len()
        invariant
            i <= found@.len(),
            copied <= i,
            copied == found@.take(i as int).filter(was_found()).len(),
        decreases found@.len() - i,
    {
        proof {
            lemma_filter_step(found@, was_found(), i as int);
        }
        if found[i] {
            copied = copied + 1;
        }
        i = i + 1;
    }
    proof {
        lemma_take_all(found@);
    }
    PromoteOutcome { digest, copied_records: copied }
}

/// The counters of the directory to move after a tag was deleted: `None` where
/// there was no tag.
pub fn delete_tag(old: Option<&ArtifactRecord>) -> (r: Option<(i64, i64)>)
    requires
        old matches Some(rec) ==> rec.size != 0x8000_0000_0000_0000,
    ensures
        r is Some <==> old is Some,
        r matches Some(d) ==> d.0 == -1 && d.1 == -signed(old->Some_0.size),
{
    match old {
        Some(rec) => Some(removal_delta(rec.size)),
        None => None,
    }
}

/// When the tag is written, everything it leads to has been: the copy of the tag
/// is the last copy, and the copies before it are those of the blobs and the
/// manifests of the closure.
pub proof fn law_tag_is_copied_last(
    w: WalkView,
    image: Option<Seq<char>>,
    tag: Seq<char>,
    delete_source: bool,
)
    ensures
        ({
            let steps = tag_steps(w, image, tag, delete_source);
            let n = w.blobs.len() + w.manifests.len();
            &&& steps.len() > n
            &&& steps[n as int] == TagStepView::Copy(tag_path(image, tag))
            &&& forall|i: int|
                0 <= i < w.blobs.len() ==> #[trigger] steps[i] == TagStepView::Copy(
                    blob_ref_path(w.blobs[i][0]),
                )
            &&& forall|i: int|
                0 <= i < w.manifests.len() ==> steps[w.blobs.len() + i] == TagStepView::Copy(
                    manifest_path(image, #[trigger] w.manifests[i]),
                )
            &&& forall|i: int| n < i < steps.len() ==> !(#[trigger] steps[i] is Copy)
        }),
{
}

/// A copy deletes nothing; a move deletes the source tag, once, after every copy.
pub proof fn law_delete_comes_last(
    w: WalkView,
    image: Option<Seq<char>>,
    tag: Seq<char>,
    delete_source: bool,
)
    ensures
        ({
            let steps = tag_steps(w, image, tag, delete_source);
            forall|i: int|
                0 <= i < steps.len() ==> (#[trigger] steps[i] == TagStepView::DeleteTag
                    <==> delete_source && i == steps.len() - 1)
        }),
{
}

} // verus!
