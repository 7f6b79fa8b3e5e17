//! What the depot stores of artifacts, blobs and blob stores.
use crate::time::Timestamp;
use vstd::prelude::*;

verus! {

/// The version that newly written records carry.
pub const CURRENT_RECORD_VERSION: u32 = 1;

/// What an artifact record stands for.
#[derive(Debug, PartialEq, Eq)]
pub enum ArtifactKind {
    Raw,
    DockerTag { digest: String, tag: String },
    DockerManifest { digest: String },
    HelmChart { name: String, version: String },
}

/// The contents of an [`ArtifactKind`].
#[verifier::ext_equal]
pub enum ArtifactKindView {
    Raw,
    DockerTag { digest: Seq<char>, tag: Seq<char> },
    DockerManifest { digest: Seq<char> },
    HelmChart { name: Seq<char>, version: Seq<char> },
}

impl DeepView for ArtifactKind {
    type V = ArtifactKindView;

    open spec fn deep_view(&self) -> ArtifactKindView {
        match self {
            ArtifactKind::Raw => ArtifactKindView::Raw,
            ArtifactKind::DockerTag { digest, tag } => ArtifactKindView::DockerTag {
                digest: digest@,
                tag: tag@,
            },
            ArtifactKind::DockerManifest { digest } => ArtifactKindView::DockerManifest {
                digest: digest@,
            },
            ArtifactKind::HelmChart { name, version } => ArtifactKindView::HelmChart {
                name: name@,
                version: version@,
            },
        }
    }
}

/// An artifact of a repository.
#[derive(Debug, PartialEq, Eq)]
pub struct ArtifactRecord {
    pub schema_version: u32,
    pub id: String,
    pub size: u64,
    pub content_type: String,
    pub kind: ArtifactKind,
    pub created_at: Timestamp,
    pub updated_at: Timestamp,
    pub last_accessed_at: Timestamp,
    pub path: String,
    pub internal: bool,
    pub blob_id: Option<String>,
    pub content_hash: Option<String>,
    pub etag: Option<String>,
}

/// The contents of an [`ArtifactRecord`].
#[verifier::ext_equal]
pub struct ArtifactRecordView {
    pub schema_version: u32,
    pub id: Seq<char>,
    pub size: u64,
    pub content_type: Seq<char>,
    pub kind: ArtifactKindView,
    pub created_at: Timestamp,
    pub updated_at: Timestamp,
    pub last_accessed_at: Timestamp,
    pub path: Seq<char>,
    pub internal: bool,
    pub blob_id: Option<Seq<char>>,
    pub content_hash: Option<Seq<char>>,
    pub etag: Option<Seq<char>>,
}

impl DeepView for ArtifactRecord {
    type V = ArtifactRecordView;

    open spec fn deep_view(&self) -> ArtifactRecordView {
        ArtifactRecordView {
            schema_version: self.schema_version,
            id: self.id@,
            size: self.size,
            content_type: self.content_type@,
            kind: self.kind.deep_view(),
            created_at: self.created_at,
            updated_at: self.updated_at,
            last_accessed_at: self.last_accessed_at,
            path: self.path@,
            internal: self.internal,
            blob_id: self.blob_id.deep_view(),
            content_hash: self.content_hash.deep_view(),
            etag: self.etag.deep_view(),
        }
    }
}

/// The blob that a record points at: an absent or empty id points at none.
pub open spec fn blob_of(r: ArtifactRecordView) -> Option<Seq<char>> {
    match r.blob_id {
        Some(id) => if id.len() > 0 {
            Some(id)
        } else {
            None
        },
        None => None,
    }
}

impl ArtifactRecord {
    /// The blob that the record points at, if any.
    pub fn blob(&self) -> (r: Option<String>)
        ensures
            r.deep_view() == blob_of(self.deep_view()),
    {
        match &self.blob_id {
            Some(id) => if id.as_str().unicode_len() > 0 {
                Some(id.clone())
            } else {
                None
            },
            None => None,
        }
    }
}

/// A blob of a blob store: the content with this hash is kept under this id.
#[derive(Debug, PartialEq, Eq)]
pub struct BlobRecord {
    pub schema_version: u32,
    pub blob_id: String,
    pub hash: String,
    pub size: u64,
    pub created_at: Timestamp,
    pub store: String,
}

/// The contents of a [`BlobRecord`].
#[verifier::ext_equal]
pub struct BlobRecordView {
    pub schema_version: u32,
    pub blob_id: Seq<char>,
    pub hash: Seq<char>,
    pub size: u64,
    pub created_at: Timestamp,
    pub store: Seq<char>,
}

impl DeepView for BlobRecord {
    type V = BlobRecordView;

    open spec fn deep_view(&self) -> BlobRecordView {
        BlobRecordView {
            schema_version: self.schema_version,
            blob_id: self.blob_id@,
            hash: self.hash@,
            size: self.size,
            created_at: self.created_at,
            store: self.store@,
        }
    }
}

/// How much a blob store holds.
#[derive(Debug, Clone, Copy, PartialEq, Eq, Structural)]
pub struct StoreStatsRecord {
    pub blob_count: u64,
    pub total_bytes: u64,
    pub updated_at: Timestamp,
}

impl DeepView for StoreStatsRecord {
    type V = StoreStatsRecord;

    open spec fn deep_view(&self) -> StoreStatsRecord {
        *self
    }
}

} // verus!
