//! What copying records between repositories, and the statistics of stores, promise.
use crate::error::{DepotError, DepotErrorView};
use crate::helm::promote::{chart_check, chart_file, check_chart_collision, finish_of};
use crate::laws::seqs::law_spread_joins;
use crate::ordered::{key1, lookup};
use crate::seqs::result_view;
use crate::service::blob::{
    claim_or_reuse_blob, dedup_step, flattened, page_of, sum_of, Claim, DedupEventView,
    DedupStepView,
};
use crate::service::promote::{
    blake3_hex, copy_step, credits, delta_fits, delta_of, missing_blob, rehomed, signed,
    upload_record, verbatim, CopyStepView, CopyTarget, CopyTargetView, Credits,
};
use crate::service::records::{blob_of, ArtifactRecordView, BlobRecord, BlobRecordView};
use crate::service::store::{blobs_in, bytes_in, sum_fits, tallies_match, tally_or_zero, tally_sum};
use crate::time::{elapsed, later, seconds_before, whole_days, Timestamp};
use vstd::prelude::*;

verus! {

/// A record has content exactly where it names a blob.
pub proof fn law_record_names_its_blob(r: ArtifactRecordView)
    ensures
        r.blob_id is None ==> blob_of(r) is None,
        r.blob_id matches Some(id) ==> (id.len() > 0 ==> blob_of(r) == Some(id)),
        r.blob_id matches Some(id) ==> (id.len() == 0 ==> blob_of(r) is None),
{
}

/// A record is copied as it is where both repositories keep their blobs in one store
/// or the record has no blob; otherwise its blob is copied along.
pub proof fn law_blob_goes_along_to_another_store(
    t: CopyTargetView,
    r: ArtifactRecordView,
    id: Seq<char>,
)
    ensures
        copy_step(t, None) is Absent,
        t.source_store == t.dest_store ==> copy_step(t, Some(r)) == CopyStepView::Verbatim(r),
        r.blob_id is None ==> copy_step(t, Some(r)) == CopyStepView::Verbatim(r),
        t.source_store != t.dest_store && r.blob_id == Some(id) && id.len() > 0 ==> copy_step(
            t,
            Some(r),
        ) == (CopyStepView::Rehome { record: r, blob_id: id }),
{
}

/// An uploaded blob stands in the destination's store with its own id, the size of
/// its data, and the hash that the record knows or else that of the data.
pub proof fn law_upload_stands_in_the_destination(
    t: CopyTargetView,
    rec: ArtifactRecordView,
    data: Seq<u8>,
    id: Seq<char>,
    now: Timestamp,
)
    requires
        data.len() <= u64::MAX,
    ensures
        ({
            let b = upload_record(t, rec, data, id, now);
            &&& b.store == t.dest_store
            &&& b.blob_id == id
            &&& b.size == data.len()
            &&& b.created_at == now
            &&& rec.content_hash matches Some(h) ==> b.hash == h
            &&& rec.content_hash is None ==> b.hash == blake3_hex(data)
        }),
{
}

/// A blob that is gone is a fault in the data, which names the blob and its store.
pub proof fn law_missing_blob_is_named(t: CopyTargetView, id: Seq<char>)
    ensures
        missing_blob(t, id) == DepotErrorView::DataIntegrity(
            "blob "@ + id + " missing in source store '"@ + t.source_store + "'"@,
        ),
{
}

/// A size is taken as the signed number of the same bits.
pub proof fn law_signed_size_has_the_same_bits(x: u64)
    ensures
        x < 0x8000_0000_0000_0000 ==> signed(x) == x,
        x >= 0x8000_0000_0000_0000 ==> signed(x) == x - 0x1_0000_0000_0000_0000,
{
}

/// A new record counts as one with its size; one that replaces another only adds
/// the difference of the sizes.
pub proof fn law_replacing_adds_the_difference(size: u64, old: u64)
    requires
        size < 0x8000_0000_0000_0000,
        old < 0x8000_0000_0000_0000,
    ensures
        delta_of(size, None) == (1int, size as int),
        delta_of(size, Some(old)) == (0int, size - old),
{
}

/// The store is credited exactly where content was stored, with one blob and its
/// size; the directory is credited either way.
pub proof fn law_store_is_credited_for_new_content(
    size: u64,
    old: Option<u64>,
    stored: bool,
    added: u64,
    r: Credits,
)
    requires
        call_ensures(credits, (size, old, stored, added), r),
        added < 0x8000_0000_0000_0000,
        size < 0x8000_0000_0000_0000,
    ensures
        stored ==> r.store == Some((1i64, added as i64)),
        !stored ==> r.store is None,
        old is None ==> r.directory == (1i64, size as i64),
        old matches Some(o) ==> (o < 0x8000_0000_0000_0000 ==> r.directory.0 == 0 && r.directory.1
            == size - o),
{
}

/// What follows each answer while content is recorded: new content is done, known
/// content is read, and a record that is gone by then is written.
pub proof fn law_known_content_is_read(held: BlobRecordView)
    ensures
        dedup_step(DedupEventView::PutIfAbsent(true)) == DedupStepView::Done(None),
        dedup_step(DedupEventView::PutIfAbsent(false)) is ReadExisting,
        dedup_step(DedupEventView::Read(Some(held))) == DedupStepView::Done(Some(held.blob_id)),
        dedup_step(DedupEventView::Read(None)) is Put,
        dedup_step(DedupEventView::Written) == DedupStepView::Done(None),
{
}

/// A duplicate is dropped exactly where the content is known under another id, which
/// then is the one to use.
pub proof fn law_duplicate_is_dropped(
    record: BlobRecord,
    existing: Option<String>,
    r: Claim,
)
    requires
        call_ensures(claim_or_reuse_blob, (&record, existing), r),
    ensures
        existing is None ==> r.blob_id@ == record.blob_id@ && !r.drop_duplicate,
        existing matches Some(id) ==> r.blob_id@ == id@ && (r.drop_duplicate <==> id@
            != record.blob_id@),
{
}

/// A page has the items at its places, as many as there are and were asked for.
pub proof fn law_page_has_the_items_at_its_places<T>(s: Seq<T>, offset: nat, limit: nat, i: int)
    ensures
        offset + limit <= s.len() ==> page_of(s, offset, limit).len() == limit,
        offset <= s.len() < offset + limit ==> page_of(s, offset, limit).len() == s.len() - offset,
        offset > s.len() ==> page_of(s, offset, limit).len() == 0,
        0 <= i < limit && offset + i < s.len() ==> page_of(s, offset, limit)[i] == s[offset + i],
{
}

/// The shards of a store are listed one behind the other, and their counts add up.
pub proof fn law_shards_add_up(a: Seq<usize>, b: Seq<usize>)
    ensures
        sum_of(a + b) == sum_of(a) + sum_of(b),
        a.len() == 0 ==> sum_of(a) == 0,
        a.len() == 1 ==> sum_of(a) == a[0],
    decreases b.len(),
{
    if b.len() > 0 {
        law_shards_add_up(a, b.drop_last());
        assert((a + b).drop_last() =~= a + b.drop_last());
    } else {
        assert(a + b =~= a);
    }
    if a.len() == 1 {
        assert(sum_of(a.drop_last()) == 0);
    }
}

/// Lists are joined in their order.
pub proof fn law_lists_are_joined<T>(a: Seq<Seq<T>>, b: Seq<Seq<T>>)
    ensures
        flattened(a + b) == flattened(a) + flattened(b),
        a.len() == 1 ==> flattened(a) == a[0],
{
    law_spread_joins(a, b, |l: Seq<T>| l);
}

/// A store holds each blob of its own once, with its size, and none of another.
pub proof fn law_store_counts_its_own_blobs(
    records: Seq<BlobRecordView>,
    rec: BlobRecordView,
    store: Seq<char>,
)
    ensures
        blobs_in(Seq::empty(), store) == 0,
        bytes_in(Seq::empty(), store) == 0,
        rec.store == store ==> blobs_in(records.push(rec), store) == blobs_in(records, store) + 1
            && bytes_in(records.push(rec), store) == bytes_in(records, store) + rec.size,
        rec.store != store ==> blobs_in(records.push(rec), store) == blobs_in(records, store)
            && bytes_in(records.push(rec), store) == bytes_in(records, store),
{
    assert(records.push(rec).drop_last() =~= records);
}

/// Tallies that match count the blobs and bytes of each store; a store without an
/// entry has none.
pub proof fn law_tallies_count_blobs_and_bytes(
    entries: Seq<(Seq<Seq<char>>, (u64, u64))>,
    records: Seq<BlobRecordView>,
    store: Seq<char>,
)
    requires
        tallies_match(entries, records),
    ensures
        lookup(entries, key1(store)) matches Some(e) ==> e.0 == blobs_in(records, store) && e.1
            == bytes_in(records, store),
        lookup(entries, key1(store)) is None ==> blobs_in(records, store) == 0 && bytes_in(
            records,
            store,
        ) == 0,
{
    assert(tally_or_zero(lookup(entries, key1(store))).0 == blobs_in(records, store));
}

/// Of two different instants exactly one is later, and to be later is to have more
/// seconds, or as many and more nanoseconds.
pub proof fn law_instants_are_ordered(a: Timestamp, b: Timestamp)
    ensures
        later(a, b) <==> a.secs > b.secs || (a.secs == b.secs && a.nanos > b.nanos),
        !(later(a, b) && later(b, a)),
        a != b ==> later(a, b) || later(b, a),
{
}

/// Going back some seconds and counting them gives the seconds.
pub proof fn law_seconds_before(t: Timestamp, secs: i64, r: Option<Timestamp>)
    requires
        call_ensures(seconds_before, (t, secs), r),
        t.nanos < 1_000_000_000,
    ensures
        r matches Some(b) ==> elapsed(b, t) == secs * 1_000_000_000 && (secs > 0 ==> later(t, b)),
        r is None ==> t.secs - secs > i64::MAX || t.secs - secs < i64::MIN,
{
}

/// Outside leap seconds the time from one instant to another is their distance in
/// nanoseconds, and as long, negated, the other way round.
pub proof fn law_elapsed_time_is_the_distance(a: Timestamp, b: Timestamp)
    requires
        a.nanos < 1_000_000_000,
        b.nanos < 1_000_000_000,
    ensures
        elapsed(a, b) == (b.secs - a.secs) * 1_000_000_000 + b.nanos - a.nanos,
        elapsed(b, a) == -elapsed(a, b),
{
}

/// The whole days between two instants: so many full days have gone by, and less
/// than one more; backwards they count as many, negated.
pub proof fn law_whole_days_have_gone_by(a: Timestamp, b: Timestamp)
    ensures
        elapsed(a, b) >= 0 ==> whole_days(a, b) * 86_400_000_000_000 <= elapsed(a, b) < (whole_days(
            a,
            b,
        ) + 1) * 86_400_000_000_000,
        elapsed(b, a) == -elapsed(a, b) ==> whole_days(b, a) == -whole_days(a, b),
{
    let day: int = 86_400_000_000_000;
    let e = elapsed(a, b);
    assert(e >= 0 ==> (e / day) * day <= e < (e / day + 1) * day) by (nonlinear_arith)
        requires
            day == 86_400_000_000_000,
    ;
}

/// A chart's file is named by name and version.
pub proof fn law_chart_file_is_named_by_its_version(name: Seq<char>, version: Seq<char>)
    ensures
        chart_file(name, version) == name + "-"@ + version + ".tgz"@,
{
}

/// A chart is promoted only where its record is there and is that of a chart.
pub proof fn law_only_charts_are_promoted(
    t: CopyTargetView,
    name: Seq<char>,
    version: Seq<char>,
    rec: Option<ArtifactRecordView>,
)
    ensures
        chart_check(t, name, version, rec) is Ok <==> rec is Some && rec->Some_0.kind is HelmChart,
        rec is None ==> chart_check(t, name, version, rec) == Err::<(), DepotErrorView>(
            DepotErrorView::NotFound(
                "chart '"@ + name + "-"@ + version + "' not found in repository '"@ + t.source_repo
                    + "'"@,
            ),
        ),
        rec is Some && !(rec->Some_0.kind is HelmChart) ==> (chart_check(
            t,
            name,
            version,
            rec,
        ) matches Err(e) && e is DataIntegrity),
{
}

/// A chart that is there already stops a promotion, unless it may be overwritten.
pub proof fn law_chart_that_is_there_stops_a_promotion(
    t: CopyTarget,
    name: &str,
    version: &str,
    overwrite: bool,
    taken: bool,
    r: Result<(), DepotError>,
)
    requires
        call_ensures(check_chart_collision, (&t, name, version, overwrite, taken), r),
    ensures
        taken && !overwrite ==> result_view(r) == Err::<(), DepotErrorView>(
            DepotErrorView::Conflict(
                "chart '"@ + name@ + "-"@ + version@ + "' already exists in repository '"@
                    + t.dest_repo@ + "' (set overwrite to replace)"@,
            ),
        ),
        !taken || overwrite ==> r is Ok,
{
}

/// The index of the destination is stale where something was copied, that of the
/// source where something was deleted.
pub proof fn law_changed_indexes_are_stale(
    name: Seq<char>,
    version: Seq<char>,
    copied: bool,
    deleted: bool,
)
    ensures
        ({
            let f = finish_of(name, version, copied, deleted);
            &&& f.dest_stale == copied
            &&& f.source_stale == deleted
            &&& f.outcome.source_deleted == deleted
            &&& copied ==> f.outcome.copied_records == 1
            &&& !copied ==> f.outcome.copied_records == 0
            &&& f.outcome.chart_path == name + "-"@ + version + ".tgz"@
        }),
{
}

/// A record that is copied as it is stores nothing and leaves no upload behind.
pub proof fn law_verbatim_copy_stores_nothing(rec: ArtifactRecordView)
    ensures
        verbatim(rec).record == rec,
        !verbatim(rec).stored && !verbatim(rec).drop_upload && verbatim(rec).added == 0,
{
}

/// New content is stored with its size and its upload stays; known content is not
/// stored again and its upload goes.
pub proof fn law_upload_stays_with_new_content(
    rec: ArtifactRecordView,
    upload: BlobRecordView,
    id: Seq<char>,
)
    ensures
        ({
            let new = rehomed(rec, upload, None);
            let known = rehomed(rec, upload, Some(id));
            &&& new.stored && !new.drop_upload && new.added == upload.size && new.record.blob_id
                == Some(upload.blob_id)
            &&& !known.stored && known.drop_upload && known.added == 0 && known.record.blob_id
                == Some(id)
        }),
{
}

/// A difference of sizes fits exactly where it is a signed number of 64 bits; a new
/// record's size always does.
pub proof fn law_differences_fit_in_64_bits(size: u64, old: u64)
    ensures
        delta_fits(size, None),
        size < 0x8000_0000_0000_0000 && old < 0x8000_0000_0000_0000 ==> delta_fits(size, Some(old)),
        delta_fits(size, Some(old)) <==> -0x8000_0000_0000_0000 <= signed(size) - signed(old)
            < 0x8000_0000_0000_0000,
{
}

/// A leap second lasts: from within it to a later second of the day takes one second
/// more than the seconds tell, and as much less backwards.
pub proof fn law_leap_second_lasts(a: Timestamp, b: Timestamp)
    requires
        a.nanos >= 1_000_000_000,
        b.nanos < 1_000_000_000,
        a.secs as int % 86_400 < b.secs as int % 86_400,
    ensures
        elapsed(a, b) == (b.secs - a.secs + 1) * 1_000_000_000 + b.nanos - a.nanos,
        elapsed(b, a) == -elapsed(a, b),
{
}

/// Within one second of the day the nanoseconds alone tell, in a leap second too.
pub proof fn law_same_second_is_told_by_nanoseconds(a: Timestamp, b: Timestamp)
    requires
        a.secs as int % 86_400 == b.secs as int % 86_400,
    ensures
        elapsed(a, b) == (b.secs - a.secs) * 1_000_000_000 + b.nanos - a.nanos,
{
}

/// Tallies can be added exactly where both sums are numbers of 64 bits.
pub proof fn law_tallies_are_added_where_they_fit(a: (u64, u64), b: (u64, u64))
    ensures
        sum_fits(a, b) <==> a.0 + b.0 < 0x1_0000_0000_0000_0000 && a.1 + b.1
            < 0x1_0000_0000_0000_0000,
        sum_fits(a, b) ==> tally_sum(a, b).0 == a.0 + b.0 && tally_sum(a, b).1 == a.1 + b.1,
{
}

/// A record that is no chart is told by its path and repository.
pub proof fn law_other_record_is_no_chart(
    t: CopyTargetView,
    name: Seq<char>,
    version: Seq<char>,
    rec: ArtifactRecordView,
)
    requires
        !(rec.kind is HelmChart),
    ensures
        chart_check(t, name, version, Some(rec)) == Err::<(), DepotErrorView>(
            DepotErrorView::DataIntegrity(
                "record at '"@ + (name + "-"@ + version + ".tgz"@) + "' in '"@ + t.source_repo
                    + "' is not a Helm chart"@,
            ),
        ),
{
}

} // verus!
