//! The contents of a rules file.
use crate::ordered::OrderedMap;
use vstd::prelude::*;

verus! {

/// The action a rule applies to a matching `image:tag`.
#[derive(Debug, Clone, Copy, PartialEq, Eq, Structural)]
pub enum Action {
    /// Relocate the tag into `dest`.
    Move,
    /// Delete from source only if the `check` repo does not have the tag.
    DeleteIfAbsent,
    /// Released-image reconcile against a canonical `check` repo: absent there,
    /// move to `dest`; present with the same content digest, delete the
    /// redundant source copy; present with a different digest, leave and flag.
    Reconcile,
    /// Route a released tag by an explicit per-image class list: an aux image
    /// moves to `aux_dest`; an insight image is reconciled against
    /// `insight_repo`; an image on neither list needs classification.
    Classify,
    /// Delete from source unconditionally.
    Delete,
    /// Leave in place (reported).
    Leave,
}

/// Policy for a reconcile or classify rule when the source and check-repo
/// digests differ.
#[derive(Debug, Clone, Copy, PartialEq, Eq, Structural)]
pub enum MismatchPolicy {
    /// The source copy is deleted with the `mismatch` group when the check copy
    /// is newer or the same build; a newer source is always kept for review.
    Delete,
    /// Never delete: park every mismatch for review, regardless of evidence.
    Leave,
}

impl Default for MismatchPolicy {
    fn default() -> (r: Self)
        ensures
            r == MismatchPolicy::Delete,
    {
        MismatchPolicy::Delete
    }
}

/// One rule of a group.
#[derive(Debug)]
pub struct Rule {
    /// Pattern name or an inline regex.
    pub match_: String,
    /// Exact image-name filter; empty means any image.
    pub images: Vec<String>,
    pub action: Action,
    /// Destination repo for `move` and `reconcile`.
    pub dest: Option<String>,
    /// Presence-check repo for `delete_if_absent` and `reconcile`.
    pub check: Option<String>,
    /// What to do with a tag whose check copy has a different digest.
    pub on_mismatch: Option<MismatchPolicy>,
    /// `classify`: destination for an image on the aux list.
    pub aux_dest: Option<String>,
    /// `classify`: the canonical insight repo to verify an insight image against.
    pub insight_repo: Option<String>,
    /// `classify`: path of a file with the two image lists, merged with the
    /// inline lists below.
    pub classes_file: Option<String>,
    /// `classify`: inline insight-image list.
    pub insight_images: Vec<String>,
    /// `classify`: inline aux-image list.
    pub aux_images: Vec<String>,
}

/// The two image lists of a classes file.
#[derive(Debug)]
pub struct ImageClassesFile {
    pub insight_images: Vec<String>,
    pub aux_images: Vec<String>,
}

impl Default for ImageClassesFile {
    fn default() -> (r: Self)
        ensures
            r.insight_images@.len() == 0,
            r.aux_images@.len() == 0,
    {
        ImageClassesFile { insight_images: Vec::new(), aux_images: Vec::new() }
    }
}

/// One group of repositories of one artifact format.
#[derive(Debug)]
pub struct Group {
    /// Artifact format this group applies to.
    pub format: String,
    pub source_repos: Vec<String>,
    /// Image-name prefixes considered first-party; the rules apply to these only.
    pub first_party_prefixes: Vec<String>,
    /// Repos to be drained, such as a dead cache: first-party tags are routed by
    /// the rules, the third-party remainder is reported and never deleted.
    pub purge_repos: Vec<String>,
    /// Image-name prefixes to retire: every tag under one that is not first-party
    /// is to be deleted from the repos that are scanned.
    pub retired_prefixes: Vec<String>,
    pub rules: Vec<Rule>,
}

/// Declares that `cache_repo` should mirror the `upstream_repos` of an
/// authoritative upstream registry. The dry run flags every first-party tag of
/// the cache that the upstream does not have.
#[derive(Debug)]
pub struct CheckAuthority {
    /// Cache repo on the local depot to validate.
    pub cache_repo: String,
    /// Base URL of the authoritative upstream registry.
    pub upstream_url: String,
    /// Repos on the upstream that together form the source of truth.
    pub upstream_repos: Vec<String>,
}

/// A whole rules file.
pub struct RulesFile {
    /// Reusable named regexes.
    pub patterns: OrderedMap<String, String>,
    pub group: Vec<Group>,
    /// Repository to read last-accessed data from for the dry-run report.
    pub usage_repo: Option<String>,
    /// The upstream registry that released tags are verified against, with the
    /// local cache that is compared with it.
    pub check_authority: Option<CheckAuthority>,
}

} // verus!
