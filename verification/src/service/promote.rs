//! Copying and moving artifact records between repositories.
//!
//! Where both repositories keep their blobs in the same store, a record is
//! copied as it is and no bytes move. Where the stores differ, the bytes of the
//! record's blob are uploaded to the destination store, unless it has that
//! content already, and the copy points at the blob there. Either way the copy
//! keeps the timestamps of the record.
use crate::error::{DepotError, DepotErrorView};
use crate::seqs::result_view;
use crate::service::records::{
    blob_of, ArtifactRecord, ArtifactRecordView, BlobRecord, BlobRecordView, CURRENT_RECORD_VERSION,
};
use crate::text::same_text;
use crate::time::Timestamp;
use vstd::prelude::*;

verus! {

/// Where records are copied from and to: repositories and their blob stores.
#[derive(Debug)]
pub struct CopyTarget<'a> {
    pub source_repo: &'a str,
    pub source_store: &'a str,
    pub dest_repo: &'a str,
    pub dest_store: &'a str,
}

/// The contents of a [`CopyTarget`].
#[verifier::ext_equal]
pub struct CopyTargetView {
    pub source_repo: Seq<char>,
    pub source_store: Seq<char>,
    pub dest_repo: Seq<char>,
    pub dest_store: Seq<char>,
}

impl<'a> DeepView for CopyTarget<'a> {
    type V = CopyTargetView;

    open spec fn deep_view(&self) -> CopyTargetView {
        CopyTargetView {
            source_repo: self.source_repo@,
            source_store: self.source_store@,
            dest_repo: self.dest_repo@,
            dest_store: self.dest_store@,
        }
    }
}

/// How a record is copied.
#[derive(Debug, PartialEq, Eq)]
pub enum CopyStep {
    /// There is no such record.
    Absent,
    /// Write the record as it is.
    Verbatim(ArtifactRecord),
    /// Bring this blob to the destination store first.
    Rehome { record: ArtifactRecord, blob_id: String },
}

/// The contents of a [`CopyStep`].
#[verifier::ext_equal]
pub enum CopyStepView {
    Absent,
    Verbatim(ArtifactRecordView),
    Rehome { record: ArtifactRecordView, blob_id: Seq<char> },
}

impl DeepView for CopyStep {
    type V = CopyStepView;

    open spec fn deep_view(&self) -> CopyStepView {
        match self {
            CopyStep::Absent => CopyStepView::Absent,
            CopyStep::Verbatim(r) => CopyStepView::Verbatim(r.deep_view()),
            CopyStep::Rehome { record, blob_id } => CopyStepView::Rehome {
                record: record.deep_view(),
                blob_id: blob_id@,
            },
        }
    }
}

/// Both repositories keep their blobs in one store.
pub open spec fn shares_store(t: CopyTargetView) -> bool {
    t.source_store == t.dest_store
}

/// How a source record is copied: only a record with a blob in another store
/// needs its bytes moved.
pub open spec fn copy_step(t: CopyTargetView, rec: Option<ArtifactRecordView>) -> CopyStepView {
    match rec {
        None => CopyStepView::Absent,
        Some(r) => match blob_of(r) {
            Some(id) if !shares_store(t) => CopyStepView::Rehome { record: r, blob_id: id },
            _ => CopyStepView::Verbatim(r),
        },
    }
}

/// The lowercase hexadecimal blake3 hash of some bytes.
pub uninterp spec fn blake3_hex(data: Seq<u8>) -> Seq<char>;

/// Calls `blake3::hash` and writes the hash with `to_hex`: it depends on the
/// bytes alone.
#[verifier::external_body]
fn hash_hex(data: &[u8]) -> (r: String)
    ensures
        r@ == blake3_hex(data@),
{
    blake3::hash(data).to_hex().to_string()
}

/// Calls `uuid::Uuid::new_v4` and writes the identifier in its usual form.
/// Nothing is claimed of the random identifier.
#[verifier::external_body]
fn fresh_id() -> (r: String) {
    uuid::Uuid::new_v4().to_string()
}

/// The record of an upload: the content hash is that of the artifact record
/// where it has one, else that of the bytes.
pub open spec fn upload_record(
    t: CopyTargetView,
    rec: ArtifactRecordView,
    data: Seq<u8>,
    new_id: Seq<char>,
    now: Timestamp,
) -> BlobRecordView {
    BlobRecordView {
        schema_version: CURRENT_RECORD_VERSION,
        blob_id: new_id,
        hash: match rec.content_hash {
            Some(h) => h,
            None => blake3_hex(data),
        },
        size: data.len() as u64,
        created_at: now,
        store: t.dest_store,
    }
}

/// The message for a blob that is missing in the source store.
pub open spec fn missing_blob(t: CopyTargetView, blob_id: Seq<char>) -> DepotErrorView {
    DepotErrorView::DataIntegrity(
        "blob "@ + blob_id + " missing in source store '"@ + t.source_store + "'"@,
    )
}

/// What becomes of a copied record.
#[derive(Debug, PartialEq, Eq)]
pub struct Rehomed {
    /// The record to write.
    pub record: ArtifactRecord,
    /// The destination store gained a blob.
    pub stored: bool,
    /// The bytes that the destination store gained.
    pub added: u64,
    /// The upload is a duplicate, to be deleted.
    pub drop_upload: bool,
}

/// The contents of a [`Rehomed`].
#[verifier::ext_equal]
pub struct RehomedView {
    pub record: ArtifactRecordView,
    pub stored: bool,
    pub added: u64,
    pub drop_upload: bool,
}

impl DeepView for Rehomed {
    type V = RehomedView;

    open spec fn deep_view(&self) -> RehomedView {
        RehomedView {
            record: self.record.deep_view(),
            stored: self.stored,
            added: self.added,
            drop_upload: self.drop_upload,
        }
    }
}

/// The record points at the blob that the destination had of this content, or
/// else at the upload, whose bytes are new there.
pub open spec fn rehomed(
    rec: ArtifactRecordView,
    upload: BlobRecordView,
    existing: Option<Seq<char>>,
) -> RehomedView {
    match existing {
        Some(id) => RehomedView {
            record: ArtifactRecordView { blob_id: Some(id), ..rec },
            stored: false,
            added: 0,
            drop_upload: true,
        },
        None => RehomedView {
            record: ArtifactRecordView { blob_id: Some(upload.blob_id), ..rec },
            stored: true,
            added: upload.size,
            drop_upload: false,
        },
    }
}

/// The number that a 64-bit pattern writes as a signed number.
pub open spec fn signed(x: u64) -> int {
    if x <= i64::MAX {
        x as int
    } else {
        x - 0x1_0000_0000_0000_0000
    }
}

/// The number that a 64-bit pattern writes as a signed number.
pub fn to_signed(x: u64) -> (r: i64)
    ensures
        r == signed(x),
{
    if x <= 0x7fff_ffff_ffff_ffff {
        x as i64
    } else {
        let gap: u64 = u64::MAX - x;
        let back: i64 = gap as i64;
        -1 - back
    }
}

/// The change of the byte counter can be written.
pub open spec fn delta_fits(new_size: u64, old_size: Option<u64>) -> bool {
    match old_size {
        Some(old) => i64::MIN <= signed(new_size) - signed(old) <= i64::MAX,
        None => true,
    }
}

/// The change in count and bytes for writing a record of `new_size` over one of
/// `old_size`, or over none.
pub open spec fn delta_of(new_size: u64, old_size: Option<u64>) -> (int, int) {
    match old_size {
        Some(old) => (0, signed(new_size) - signed(old)),
        None => (1, signed(new_size)),
    }
}

/// `(count_delta, bytes_delta)` for upserting a record of `new_size` over an
/// optional existing record of `old_size`.
pub fn delta(new_size: u64, old_size: Option<u64>) -> (r: (i64, i64))
    requires
        delta_fits(new_size, old_size),
    ensures
        r.0 == delta_of(new_size, old_size).0,
        r.1 == delta_of(new_size, old_size).1,
{
    match old_size {
        Some(old) => (0, to_signed(new_size) - to_signed(old)),
        None => (1, to_signed(new_size)),
    }
}

/// Whether the change of the byte counter can be written.
pub fn can_delta(new_size: u64, old_size: Option<u64>) -> (r: bool)
    ensures
        r == delta_fits(new_size, old_size),
{
    match old_size {
        Some(old) => to_signed(new_size).checked_sub(to_signed(old)).is_some(),
        None => true,
    }
}

/// The change in count and bytes for removing a record of `size`.
pub fn removal_delta(size: u64) -> (r: (i64, i64))
    requires
        size != 0x8000_0000_0000_0000,
    ensures
        r.0 == -1,
        r.1 == -signed(size),
{
    (-1, -to_signed(size))
}

/// The counters that a copy moves: those of the destination directory, and those
/// of the destination store where it gained a blob.
#[derive(Debug, Clone, Copy, PartialEq, Eq)]
pub struct Credits {
    pub directory: (i64, i64),
    pub store: Option<(i64, i64)>,
}

impl<'a> CopyTarget<'a> {
    /// Whether both repositories keep their blobs in one store.
    pub fn same_store(&self) -> (r: bool)
        ensures
            r == shares_store(self.deep_view()),
    {
        same_text(self.source_store, self.dest_store)
    }

    /// Decide how the source record at a path is copied.
    pub fn copy_record(&self, rec: Option<ArtifactRecord>) -> (r: CopyStep)
        ensures
            r.deep_view() == copy_step(self.deep_view(), rec.deep_view()),
    {
        let rec = match rec {
            Some(r) => r,
            None => return CopyStep::Absent,
        };
        if self.same_store() {
            return CopyStep::Verbatim(rec);
        }
        match rec.blob() {
            Some(blob_id) => CopyStep::Rehome { record: rec, blob_id },
            None => CopyStep::Verbatim(rec),
        }
    }

    /// The record of an upload under a given id.
    pub fn upload_as(
        &self,
        rec: &ArtifactRecord,
        data: &[u8],
        new_id: String,
        now: Timestamp,
    ) -> (r: BlobRecord)
        ensures
            r.deep_view() == upload_record(
                self.deep_view(),
                rec.deep_view(),
                data@,
                new_id@,
                now,
            ),
    {
        let hash = match &rec.content_hash {
            Some(h) => h.clone(),
            None => hash_hex(data),
        };
        BlobRecord {
            schema_version: CURRENT_RECORD_VERSION,
            blob_id: new_id,
            hash,
            size: data.len() as u64,
            created_at: now,
            store: self.dest_store.to_string(),
        }
    }

    /// Prepare the upload of a blob that was read from the source store: the
    /// record of the upload, under a fresh id, or the error for a missing blob.
    pub fn rehome_blob(
        &self,
        rec: &ArtifactRecord,
        blob_id: &str,
        data: Option<&[u8]>,
        now: Timestamp,
    ) -> (r: Result<BlobRecord, DepotError>)
        ensures
            result_view(r) == match data {
                Some(d) => Ok::<BlobRecordView, DepotErrorView>(
                    upload_record(
                        self.deep_view(),
                        rec.deep_view(),
                        d@,
                        r->Ok_0.blob_id@,
                        now,
                    ),
                ),
                None => Err(missing_blob(self.deep_view(), blob_id@)),
            },
    {
        match data {
            Some(d) => Ok(self.upload_as(rec, d, fresh_id(), now)),
            None => {
                let mut m = "blob ".to_string();
                m.append(blob_id);
                m.append(" missing in source store '");
                m.append(self.source_store);
                m.append("'");
                Err(DepotError::DataIntegrity(m))
            },
        }
    }
}

/// A record that is written as it is: the destination store gains nothing.
pub open spec fn verbatim(rec: ArtifactRecordView) -> RehomedView {
    RehomedView { record: rec, stored: false, added: 0, drop_upload: false }
}

/// Settle a record that is written as it is.
pub fn settle_verbatim(rec: ArtifactRecord) -> (r: Rehomed)
    ensures
        r.deep_view() == verbatim(rec.deep_view()),
{
    Rehomed { record: rec, stored: false, added: 0, drop_upload: false }
}

/// Settle a re-homed record, once the destination store has answered whether it
/// had the content already.
pub fn settle_upload(rec: ArtifactRecord, upload: &BlobRecord, existing: Option<String>) -> (r:
    Rehomed)
    ensures
        r.deep_view() == rehomed(rec.deep_view(), upload.deep_view(), existing.deep_view()),
{
    let (effective, stored, added): (String, bool, u64) = match existing {
        Some(id) => (id, false, 0),
        None => (upload.blob_id.clone(), true, upload.size),
    };
    let mut record = rec;
    record.blob_id = Some(effective);
    Rehomed { record, stored, added, drop_upload: !stored }
}

/// The counters to move for a record that was written over one of `old_size`, or
/// over none. `stored` tells whether the destination store gained a blob, of
/// `added` bytes; an empty blob counts as well.
pub fn credits(new_size: u64, old_size: Option<u64>, stored: bool, added: u64) -> (r: Credits)
    requires
        delta_fits(new_size, old_size),
    ensures
        r.directory.0 == delta_of(new_size, old_size).0,
        r.directory.1 == delta_of(new_size, old_size).1,
        r.store is Some <==> stored,
        r.store matches Some(s) ==> s.0 == 1 && s.1 == signed(added),
{
    let directory = delta(new_size, old_size);
    let store = if stored {
        Some((1i64, to_signed(added)))
    } else {
        None
    };
    Credits { directory, store }
}

/// A copy within one store keeps the record as it is and adds neither a blob nor
/// bytes to the store.
pub proof fn law_same_store_copies_verbatim(t: CopyTargetView, rec: ArtifactRecordView)
    requires
        shares_store(t),
    ensures
        copy_step(t, Some(rec)) == CopyStepView::Verbatim(rec),
        verbatim(rec).record == rec,
        !verbatim(rec).stored,
        verbatim(rec).added == 0,
{
}

/// A re-homed record differs from its source in the blob it points at and in
/// nothing else: the timestamps are kept.
pub proof fn law_copy_keeps_the_record(
    rec: ArtifactRecordView,
    upload: BlobRecordView,
    existing: Option<Seq<char>>,
)
    ensures
        (ArtifactRecordView {
            blob_id: rec.blob_id,
            ..rehomed(rec, upload, existing).record
        }) == rec,
{
}

/// A copy of content that the destination store has already adds no bytes there
/// and leaves no second copy behind.
pub proof fn law_known_content_adds_nothing(
    rec: ArtifactRecordView,
    upload: BlobRecordView,
    id: Seq<char>,
)
    ensures
        !rehomed(rec, upload, Some(id)).stored,
        rehomed(rec, upload, Some(id)).added == 0,
        rehomed(rec, upload, Some(id)).drop_upload,
        rehomed(rec, upload, Some(id)).record.blob_id == Some(id),
{
}

/// A blob that the destination store did not have is counted there, with its
/// bytes, also where it is empty.
pub proof fn law_new_content_is_counted(rec: ArtifactRecordView, upload: BlobRecordView)
    ensures
        rehomed(rec, upload, None).stored,
        rehomed(rec, upload, None).added == upload.size,
        rehomed(rec, upload, None).record.blob_id == Some(upload.blob_id),
{
}

/// Writing a record over another moves the counters from where the write of the
/// old one had left them to where a write of the new one alone would have.
pub proof fn law_delta_balances(size: u64, old: u64)
    ensures
        delta_of(size, None).1 == delta_of(old, None).1 + delta_of(size, Some(old)).1,
        delta_of(size, None).0 == delta_of(old, None).0 + delta_of(size, Some(old)).0,
{
}

} // verus!
