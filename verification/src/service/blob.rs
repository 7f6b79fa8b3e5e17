//! Blob records, kept by store and content hash.
use crate::seqs::{
    lemma_insert_multiset, lemma_spread_step, lemma_take_all, push_all, push_item, spread,
};
use crate::service::records::{BlobRecord, BlobRecordView};
use crate::text::{
    compare_text, lemma_text_lt_irreflexive, lemma_text_lt_total, lemma_text_lt_transitive,
    same_text, text_le, text_lt, Order,
};
use vstd::prelude::*;

verus! {

/// The record as it is kept in a store.
pub fn put_blob(store: &str, record: &BlobRecord) -> (r: BlobRecord)
    ensures
        r.deep_view() == (BlobRecordView { store: store@, ..record.deep_view() }),
{
    BlobRecord {
        schema_version: record.schema_version,
        blob_id: record.blob_id.clone(),
        hash: record.hash.clone(),
        size: record.size,
        created_at: record.created_at,
        store: store.to_string(),
    }
}

/// What to do next to claim a content hash for a blob.
#[derive(Debug, PartialEq, Eq)]
pub enum DedupStep {
    /// Read the record that holds the hash.
    ReadExisting,
    /// Write the record after all: the one that held the hash is gone.
    Put,
    /// Done: the blob that has the content already, or none where the hash is
    /// now claimed.
    Done(Option<String>),
}

/// The contents of a [`DedupStep`].
#[verifier::ext_equal]
pub enum DedupStepView {
    ReadExisting,
    Put,
    Done(Option<Seq<char>>),
}

impl DeepView for DedupStep {
    type V = DedupStepView;

    open spec fn deep_view(&self) -> DedupStepView {
        match self {
            DedupStep::ReadExisting => DedupStepView::ReadExisting,
            DedupStep::Put => DedupStepView::Put,
            DedupStep::Done(id) => DedupStepView::Done(id.deep_view()),
        }
    }
}

/// What came of the step before.
#[derive(Debug, PartialEq, Eq)]
pub enum DedupEvent {
    /// The record was written if its hash was free: whether it was.
    PutIfAbsent(bool),
    /// The record that holds the hash was read.
    Read(Option<BlobRecord>),
    /// The record was written.
    Written,
}

/// The contents of a [`DedupEvent`].
#[verifier::ext_equal]
pub enum DedupEventView {
    PutIfAbsent(bool),
    Read(Option<BlobRecordView>),
    Written,
}

impl DeepView for DedupEvent {
    type V = DedupEventView;

    open spec fn deep_view(&self) -> DedupEventView {
        match self {
            DedupEvent::PutIfAbsent(b) => DedupEventView::PutIfAbsent(*b),
            DedupEvent::Read(r) => DedupEventView::Read(r.deep_view()),
            DedupEvent::Written => DedupEventView::Written,
        }
    }
}

/// The first to claim a hash wins; a later one reuses the blob of the record
/// that holds it; a record that vanished in between is claimed anew.
pub open spec fn dedup_step(e: DedupEventView) -> DedupStepView {
    match e {
        DedupEventView::PutIfAbsent(true) => DedupStepView::Done(None),
        DedupEventView::PutIfAbsent(false) => DedupStepView::ReadExisting,
        DedupEventView::Read(Some(r)) => DedupStepView::Done(Some(r.blob_id)),
        DedupEventView::Read(None) => DedupStepView::Put,
        DedupEventView::Written => DedupStepView::Done(None),
    }
}

/// The next step of claiming a content hash.
pub fn put_dedup_record(event: DedupEvent) -> (r: DedupStep)
    ensures
        r.deep_view() == dedup_step(event.deep_view()),
{
    match event {
        DedupEvent::PutIfAbsent(created) => if created {
            DedupStep::Done(None)
        } else {
            DedupStep::ReadExisting
        },
        DedupEvent::Read(existing) => match existing {
            Some(rec) => DedupStep::Done(Some(rec.blob_id)),
            None => DedupStep::Put,
        },
        DedupEvent::Written => DedupStep::Done(None),
    }
}

/// The blob that artifact records must point at, and whether the one that was
/// written is a duplicate to delete.
#[derive(Debug, PartialEq, Eq)]
pub struct Claim {
    pub blob_id: String,
    pub drop_duplicate: bool,
}

/// The blob that keeps the content: the one that had it before, else the one just
/// written.
pub open spec fn claimed_id(record: BlobRecordView, existing: Option<Seq<char>>) -> Seq<char> {
    match existing {
        Some(id) => id,
        None => record.blob_id,
    }
}

/// Settle which blob keeps the content. The one just written is a duplicate where
/// another had the content before.
pub fn claim_or_reuse_blob(record: &BlobRecord, existing: Option<String>) -> (r: Claim)
    ensures
        r.blob_id@ == claimed_id(record.deep_view(), existing.deep_view()),
        r.drop_duplicate <==> (existing matches Some(id) && id@ != record.blob_id@),
{
    match existing {
        Some(id) => {
            if same_text(id.as_str(), record.blob_id.as_str()) {
                Claim { blob_id: record.blob_id.clone(), drop_duplicate: false }
            } else {
                Claim { blob_id: id, drop_duplicate: true }
            }
        },
        None => Claim { blob_id: record.blob_id.clone(), drop_duplicate: false },
    }
}

/// What claiming a hash comes to in a store that holds `held` under it and changes
/// in no other way meanwhile.
pub open spec fn dedup_outcome(held: Option<BlobRecordView>) -> DedupStepView {
    match dedup_step(DedupEventView::PutIfAbsent(held is None)) {
        DedupStepView::ReadExisting => dedup_step(DedupEventView::Read(held)),
        other => other,
    }
}

/// Content is kept once: a claim settles on the blob that the store holds under
/// the hash, and on the one just written only where it holds none.
pub proof fn law_content_is_kept_once(record: BlobRecordView, held: Option<BlobRecordView>)
    ensures
        dedup_outcome(held) matches DedupStepView::Done(existing) && claimed_id(record, existing)
            == match held {
            Some(h) => h.blob_id,
            None => record.blob_id,
        },
{
}

/// The position behind the last record whose hash does not sort after `h`.
pub open spec fn hash_slot(sorted: Seq<BlobRecordView>, h: Seq<char>) -> int
    decreases sorted.len(),
{
    if sorted.len() == 0 {
        0
    } else if text_lt(h, sorted.last().hash) {
        hash_slot(sorted.drop_last(), h)
    } else {
        sorted.len() as int
    }
}

/// The records sorted by hash; equal hashes keep their order.
pub open spec fn by_hash(s: Seq<BlobRecordView>) -> Seq<BlobRecordView>
    decreases s.len(),
{
    if s.len() == 0 {
        s
    } else {
        let sorted = by_hash(s.drop_last());
        sorted.insert(hash_slot(sorted, s.last().hash), s.last())
    }
}

/// The slot is a position of the list.
proof fn lemma_hash_slot(sorted: Seq<BlobRecordView>, h: Seq<char>)
    ensures
        0 <= hash_slot(sorted, h) <= sorted.len(),
        forall|i: int|
            hash_slot(sorted, h) <= i < sorted.len() ==> text_lt(h, (#[trigger] sorted[i]).hash),
        hash_slot(sorted, h) > 0 ==> !text_lt(h, sorted[hash_slot(sorted, h) - 1].hash),
    decreases sorted.len(),
{
    if sorted.len() > 0 && text_lt(h, sorted.last().hash) {
        let rest = sorted.drop_last();
        lemma_hash_slot(rest, h);
        assert forall|i: int| hash_slot(sorted, h) <= i < sorted.len() implies text_lt(
            h,
            (#[trigger] sorted[i]).hash,
        ) by {
            if i < rest.len() {
                assert(rest[i] == sorted[i]);
            }
        }
    }
}

/// Sorting by hash puts the hashes in ascending order and keeps every record.
pub proof fn law_blobs_are_listed_by_hash(s: Seq<BlobRecordView>)
    ensures
        by_hash(s).len() == s.len(),
        forall|i: int, j: int|
            0 <= i < j < s.len() ==> text_le(
                (#[trigger] by_hash(s)[i]).hash,
                (#[trigger] by_hash(s)[j]).hash,
            ),
        by_hash(s).to_multiset() == s.to_multiset(),
    decreases s.len(),
{
    if s.len() > 0 {
        let rest = s.drop_last();
        let x = s.last();
        let sorted = by_hash(rest);
        let p = hash_slot(sorted, x.hash);
        law_blobs_are_listed_by_hash(rest);
        lemma_hash_slot(sorted, x.hash);
        lemma_insert_multiset(sorted, p, x);
        lemma_insert_multiset(rest, rest.len() as int, x);
        assert(rest.insert(rest.len() as int, x) =~= s);
        let out = sorted.insert(p, x);
        assert forall|i: int, j: int| 0 <= i < j < out.len() implies text_le(
            (#[trigger] out[i]).hash,
            (#[trigger] out[j]).hash,
        ) by {
            let a = if i < p {
                sorted[i]
            } else if i == p {
                x
            } else {
                sorted[i - 1]
            };
            let b = if j < p {
                sorted[j]
            } else if j == p {
                x
            } else {
                sorted[j - 1]
            };
            assert(out[i] == a && out[j] == b);
            if j == p {
                let top = sorted[p - 1];
                assert(text_le(top.hash, x.hash)) by {
                    lemma_text_lt_total(top.hash, x.hash);
                }
                if i < p - 1 {
                    assert(text_le(sorted[i].hash, top.hash));
                    if a.hash != top.hash && top.hash != x.hash {
                        lemma_text_lt_transitive(a.hash, top.hash, x.hash);
                    }
                }
            }
        }
    }
}

/// Put the records in the order of their hashes.
fn sort_by_hash(records: Vec<BlobRecord>) -> (r: Vec<BlobRecord>)
    ensures
        r.deep_view() == by_hash(records.deep_view()),
{
    let ghost all = records.deep_view();
    let mut out: Vec<BlobRecord> = Vec::new();
    assert(all.take(0) =~= Seq::<BlobRecordView>::empty());
    assert(out.deep_view() =~= by_hash(all.take(0)));
    for rec in iter: records
        invariant
            all == iter.seq().map_values(|b: BlobRecord| b.deep_view()),
            out.deep_view() == by_hash(all.take(iter.index() as int)),
    {
        let ghost sorted = out.deep_view();
        let ghost view = rec.deep_view();
        let mut p: usize = out.len();
        proof {
            assert(sorted.take(p as int) =~= sorted);
        }
        while p > 0 && compare_text(rec.hash.as_str(), out[p - 1].hash.as_str()) == Order::Less
            invariant
                p <= out@.len(),
                sorted == out.deep_view(),
                view == rec.deep_view(),
                hash_slot(sorted, view.hash) == hash_slot(sorted.take(p as int), view.hash),
            decreases p,
        {
            proof {
                let head = sorted.take(p as int);
                assert(head.last() == out@[p - 1].deep_view());
                assert(head.drop_last() =~= sorted.take(p - 1));
            }
            p = p - 1;
        }
        proof {
            let head = sorted.take(p as int);
            if p > 0 {
                assert(head.last() == out@[p - 1].deep_view());
            }
            lemma_text_lt_irreflexive(view.hash);
            assert(hash_slot(sorted, view.hash) == p);
            let n = iter.index() as int;
            assert(all[n] == view);
            assert(all.take(n + 1).drop_last() =~= all.take(n));
            assert(all.take(n + 1).last() == view);
        }
        out.insert(p, rec);
        assert(out.deep_view() =~= sorted.insert(p as int, view));
    }
    proof {
        lemma_take_all(all);
        assert(records.deep_view() =~= all);
    }
    out
}

/// A page of a list: at most `limit` items behind the first `offset`.
pub open spec fn page_of<T>(s: Seq<T>, offset: nat, limit: nat) -> Seq<T> {
    if offset >= s.len() {
        Seq::empty()
    } else if s.len() - offset <= limit {
        s.skip(offset as int)
    } else {
        s.subrange(offset as int, (offset + limit) as int)
    }
}

/// The items of a list of lists.
pub open spec fn flattened<T>(lists: Seq<Seq<T>>) -> Seq<T> {
    spread(lists, |l: Seq<T>| l)
}

/// A page of the blobs of a store, in the order of their hashes, and how many
/// blobs there are. The blobs come shard by shard.
pub fn list_blobs_for_store(shards: Vec<Vec<BlobRecord>>, offset: usize, limit: usize) -> (r: (
    Vec<BlobRecord>,
    usize,
))
    ensures
        r.0.deep_view() == page_of(
            by_hash(flattened(shards.deep_view())),
            offset as nat,
            limit as nat,
        ),
        r.1 == flattened(shards.deep_view()).len(),
{
    let ghost lists = shards.deep_view();
    let ghost same = |l: Seq<BlobRecordView>| l;
    let mut all: Vec<BlobRecord> = Vec::new();
    assert(lists.take(0) =~= Seq::<Seq<BlobRecordView>>::empty());
    assert(all.deep_view() =~= spread(lists.take(0), same));
    for shard in iter: shards
        invariant
            lists == iter.seq().map_values(|v: Vec<BlobRecord>| v.deep_view()),
            all.deep_view() == spread(lists.take(iter.index() as int), same),
            same == (|l: Seq<BlobRecordView>| l),
    {
        proof {
            assert(lists[iter.index() as int] == shard.deep_view());
            lemma_spread_step(lists, same, iter.index() as int);
        }
        push_all(&mut all, shard);
    }
    proof {
        lemma_take_all(lists);
        assert(shards.deep_view() =~= lists);
        law_blobs_are_listed_by_hash(all.deep_view());
    }
    let total: usize = all.len();
    let sorted = sort_by_hash(all);
    let ghost want = by_hash(flattened(lists));
    let ghost items = sorted.deep_view();
    let mut page: Vec<BlobRecord> = Vec::new();
    let mut i: usize = 0;
    assert(page.deep_view() =~= page_of(items.take(0), offset as nat, limit as nat));
    for rec in iter: sorted
        invariant
            items == iter.seq().map_values(|b: BlobRecord| b.deep_view()),
            i == iter.index(),
            page.deep_view() == page_of(items.take(i as int), offset as nat, limit as nat),
            items.len() <= usize::MAX,
    {
        let ghost before = page_of(items.take(i as int), offset as nat, limit as nat);
        if offset <= i && page.len() < limit {
            proof {
                assert(items[i as int] == rec.deep_view());
                assert(before.len() == i - offset);
                assert(page_of(items.take(i + 1), offset as nat, limit as nat) =~= before.push(
                    items[i as int],
                ));
            }
            push_item(&mut page, rec);
        } else {
            proof {
                assert(page_of(items.take(i + 1), offset as nat, limit as nat) =~= before);
            }
        }
        i = i + 1;
    }
    proof {
        lemma_take_all(items);
    }
    (page, total)
}

/// The sum of some counts.
pub open spec fn sum_of(counts: Seq<usize>) -> nat
    decreases counts.len(),
{
    if counts.len() == 0 {
        0
    } else {
        sum_of(counts.drop_last()) + counts.last() as nat
    }
}

/// The first counts sum up to no more than all of them.
proof fn lemma_sum_grows(counts: Seq<usize>, i: int)
    requires
        0 <= i <= counts.len(),
    ensures
        sum_of(counts.take(i)) <= sum_of(counts),
    decreases counts.len() - i,
{
    if i == counts.len() {
        lemma_take_all(counts);
    } else {
        lemma_sum_grows(counts, i + 1);
        assert(counts.take(i + 1).drop_last() =~= counts.take(i));
    }
}

/// The number of blobs of a store, from the counts of its shards.
pub fn count_blobs_for_store(counts: &[usize]) -> (r: usize)
    requires
        sum_of(counts@) <= usize::MAX,
    ensures
        r == sum_of(counts@),
{
    let mut total: usize = 0;
    let mut i: usize = 0;
    assert(counts@.take(0) =~= Seq::<usize>::empty());
    while i < counts.len()
        invariant
            i <= counts@.len(),
            sum_of(counts@) <= usize::MAX,
            total == sum_of(counts@.take(i as int)),
        decreases counts@.len() - i,
    {
        proof {
            lemma_sum_grows(counts@, i + 1);
            assert(counts@.take(i + 1).drop_last() =~= counts@.take(i as int));
        }
        total = total + counts[i];
        i = i + 1;
    }
    proof {
        lemma_take_all(counts@);
    }
    total
}

/// Two pages of a listing, one behind the other, are one longer page of it.
pub proof fn law_pages_join<T>(s: Seq<T>, offset: nat, first: nat, second: nat)
    ensures
        page_of(s, offset, first) + page_of(s, offset + first, second) == page_of(
            s,
            offset,
            first + second,
        ),
{
    assert(page_of(s, offset, first) + page_of(s, offset + first, second) =~= page_of(
        s,
        offset,
        first + second,
    ));
}

} // verus!
