//! Statistics of the blob stores, derived from the blob records.
use crate::ordered::{
    ascending, key1, key_lt, keys_of, lemma_key_lt_irreflexive, lemma_rank, lookup, rank,
    OrderedMap,
};
use crate::seqs::{lemma_map_step, lemma_take_all, push_item};
use crate::service::records::{BlobRecord, BlobRecordView, StoreStatsRecord};
use crate::time::Timestamp;
use vstd::prelude::*;

verus! {

/// The tally of a store that has none is zero.
pub open spec fn tally_or_zero(t: Option<(u64, u64)>) -> (u64, u64) {
    match t {
        Some(p) => p,
        None => (0, 0),
    }
}

/// Two tallies add up to counters that can be written.
pub open spec fn sum_fits(a: (u64, u64), b: (u64, u64)) -> bool {
    a.0 + b.0 <= u64::MAX && a.1 + b.1 <= u64::MAX
}

/// The sum of two tallies.
pub open spec fn tally_sum(a: (u64, u64), b: (u64, u64)) -> (u64, u64) {
    ((a.0 + b.0) as u64, (a.1 + b.1) as u64)
}

/// The tally of a store over two parts of the records, if either has any.
pub open spec fn combined(a: Option<(u64, u64)>, b: Option<(u64, u64)>) -> Option<(u64, u64)> {
    if a is None && b is None {
        None
    } else {
        Some(tally_sum(tally_or_zero(a), tally_or_zero(b)))
    }
}

/// The counters of a store have room for one blob more.
pub open spec fn has_room(entries: Seq<(Seq<Seq<char>>, (u64, u64))>, rec: BlobRecordView) -> bool {
    sum_fits(tally_or_zero(lookup(entries, key1(rec.store))), (1, rec.size))
}

/// Count a blob for its store.
pub fn tally_blob(tallies: &mut OrderedMap<String, (u64, u64)>, rec: &BlobRecord)
    requires
        has_room(old(tallies)@, rec.deep_view()),
    ensures
        forall|k: Seq<Seq<char>>| #[trigger]
            lookup(final(tallies)@, k) == if k == key1(rec.store@) {
                Some(tally_sum(tally_or_zero(lookup(old(tallies)@, k)), (1, rec.size)))
            } else {
                lookup(old(tallies)@, k)
            },
{
    let (count, bytes): (u64, u64) = match tallies.get(&rec.store) {
        Some(p) => *p,
        None => (0, 0),
    };
    tallies.insert(rec.store.clone(), (count + 1, bytes + rec.size));
}

/// Whether the counters of a store have room for one blob more.
pub fn can_tally(tallies: &OrderedMap<String, (u64, u64)>, rec: &BlobRecord) -> (r: bool)
    ensures
        r == has_room(tallies@, rec.deep_view()),
{
    let (count, bytes): (u64, u64) = match tallies.get(&rec.store) {
        Some(p) => *p,
        None => (0, 0),
    };
    count < u64::MAX && bytes <= u64::MAX - rec.size
}

/// No store's counters overflow when two tallies are added.
pub open spec fn mergeable(
    a: Seq<(Seq<Seq<char>>, (u64, u64))>,
    b: Seq<(Seq<Seq<char>>, (u64, u64))>,
) -> bool {
    forall|i: int|
        0 <= i < b.len() ==> sum_fits(
            tally_or_zero(lookup(a, (#[trigger] b[i]).0)),
            b[i].1,
        )
}

/// The entry at a position is found under its key, and under no earlier one.
proof fn lemma_entry<W>(entries: Seq<(Seq<Seq<char>>, W)>, i: int)
    requires
        ascending(keys_of(entries)),
        0 <= i < entries.len(),
    ensures
        lookup(entries, entries[i].0) == Some(entries[i].1),
        !keys_of(entries.take(i)).contains(entries[i].0),
{
    let keys = keys_of(entries);
    let k = entries[i].0;
    assert(keys[i] == k);
    assert(keys.contains(k));
    lemma_rank(keys, k);
    let p = rank(keys, k);
    lemma_key_lt_irreflexive(k);
    if p != i {
        assert(key_lt(keys[p], keys[i]) || key_lt(keys[i], keys[p]));
    }
    if keys_of(entries.take(i)).contains(k) {
        let j = choose|j: int| 0 <= j < i && keys_of(entries.take(i))[j] == k;
        assert(keys[j] == k);
        assert(key_lt(keys[j], keys[i]));
    }
}

/// Whether no store's counters overflow when two tallies are added.
pub fn can_merge(
    a: &OrderedMap<String, (u64, u64)>,
    b: &OrderedMap<String, (u64, u64)>,
) -> (r: bool)
    ensures
        r == mergeable(a@, b@),
{
    let n: usize = b.len();
    let mut i: usize = 0;
    while i < n
        invariant
            i <= n,
            n == b@.len(),
            forall|j: int|
                0 <= j < i ==> sum_fits(
                    tally_or_zero(lookup(a@, (#[trigger] b@[j]).0)),
                    b@[j].1,
                ),
        decreases n - i,
    {
        let more: (u64, u64) = *b.value_at(i);
        let (count, bytes): (u64, u64) = match a.get(b.key_at(i)) {
            Some(p) => *p,
            None => (0, 0),
        };
        if count > u64::MAX - more.0 || bytes > u64::MAX - more.1 {
            assert(!sum_fits(tally_or_zero(lookup(a@, b@[i as int].0)), b@[i as int].1));
            return false;
        }
        i = i + 1;
    }
    true
}

/// Add the tallies of another part of the records.
pub fn merge_tallies(
    a: &mut OrderedMap<String, (u64, u64)>,
    b: &OrderedMap<String, (u64, u64)>,
)
    requires
        mergeable(old(a)@, b@),
    ensures
        forall|k: Seq<Seq<char>>| #[trigger]
            lookup(final(a)@, k) == combined(lookup(old(a)@, k), lookup(b@, k)),
{
    let n: usize = b.len();
    let ghost start = a@;
    let mut i: usize = 0;
    assert(keys_of(b@.take(0)) =~= Seq::<Seq<Seq<char>>>::empty());
    while i < n
        invariant
            i <= n,
            n == b@.len(),
            ascending(keys_of(b@)),
            mergeable(start, b@),
            forall|k: Seq<Seq<char>>| #[trigger]
                lookup(a@, k) == if keys_of(b@.take(i as int)).contains(k) {
                    combined(lookup(start, k), lookup(b@, k))
                } else {
                    lookup(start, k)
                },
        decreases n - i,
    {
        let ghost before = a@;
        let k = b.key_at(i);
        let more: (u64, u64) = *b.value_at(i);
        proof {
            lemma_entry(b@, i as int);
            assert(lookup(before, b@[i as int].0) == lookup(start, b@[i as int].0));
        }
        let (count, bytes): (u64, u64) = match a.get(k) {
            Some(p) => *p,
            None => (0, 0),
        };
        assert(sum_fits(tally_or_zero(lookup(start, b@[i as int].0)), b@[i as int].1));
        a.insert(k.clone(), (count + more.0, bytes + more.1));
        proof {
            let head = keys_of(b@.take(i as int));
            let next = keys_of(b@.take(i + 1));
            assert(next =~= head.push(b@[i as int].0));
            assert forall|j: Seq<Seq<char>>| #[trigger] next.contains(j) <==> head.contains(j) || j
                == b@[i as int].0 by {
                if head.contains(j) {
                    let x = choose|x: int| 0 <= x < head.len() && head[x] == j;
                    assert(next[x] == j);
                }
                if j == b@[i as int].0 {
                    assert(next[head.len() as int] == j);
                }
                if next.contains(j) {
                    let x = choose|x: int| 0 <= x < next.len() && next[x] == j;
                    if x < head.len() {
                        assert(head[x] == j);
                    }
                }
            }
            assert forall|j: Seq<Seq<char>>| #[trigger]
                lookup(a@, j) == if next.contains(j) {
                    combined(lookup(start, j), lookup(b@, j))
                } else {
                    lookup(start, j)
                } by {
                assert(lookup(before, j) == if head.contains(j) {
                    combined(lookup(start, j), lookup(b@, j))
                } else {
                    lookup(start, j)
                });
            }
        }
        i = i + 1;
    }
    proof {
        lemma_take_all(b@);
    }
}

/// The number of blobs of a store among some records.
pub open spec fn blobs_in(records: Seq<BlobRecordView>, store: Seq<char>) -> nat
    decreases records.len(),
{
    if records.len() == 0 {
        0
    } else {
        blobs_in(records.drop_last(), store) + if records.last().store == store {
            1nat
        } else {
            0
        }
    }
}

/// The bytes of a store's blobs among some records.
pub open spec fn bytes_in(records: Seq<BlobRecordView>, store: Seq<char>) -> nat
    decreases records.len(),
{
    if records.len() == 0 {
        0
    } else {
        bytes_in(records.drop_last(), store) + if records.last().store == store {
            records.last().size as nat
        } else {
            0
        }
    }
}

/// The tallies say of every store what the records hold of it.
pub open spec fn tallies_match(
    entries: Seq<(Seq<Seq<char>>, (u64, u64))>,
    records: Seq<BlobRecordView>,
) -> bool {
    forall|store: Seq<char>| #[trigger]
        tally_or_zero(lookup(entries, key1(store))).0 == blobs_in(records, store)
            && tally_or_zero(lookup(entries, key1(store))).1 == bytes_in(records, store)
}

/// No records, no tallies.
pub proof fn law_tally_starts_empty()
    ensures
        tallies_match(Seq::empty(), Seq::empty()),
{
}

/// Counting one record more keeps the tallies in step with the records.
pub proof fn law_tally_follows_the_records(
    before: Seq<(Seq<Seq<char>>, (u64, u64))>,
    after: Seq<(Seq<Seq<char>>, (u64, u64))>,
    records: Seq<BlobRecordView>,
    rec: BlobRecordView,
)
    requires
        tallies_match(before, records),
        has_room(before, rec),
        forall|k: Seq<Seq<char>>| #[trigger]
            lookup(after, k) == if k == key1(rec.store) {
                Some(tally_sum(tally_or_zero(lookup(before, k)), (1, rec.size)))
            } else {
                lookup(before, k)
            },
    ensures
        tallies_match(after, records.push(rec)),
{
    assert(records.push(rec).drop_last() =~= records);
    assert forall|store: Seq<char>| #[trigger]
        tally_or_zero(lookup(after, key1(store))).0 == blobs_in(records.push(rec), store)
            && tally_or_zero(lookup(after, key1(store))).1 == bytes_in(
            records.push(rec),
            store,
        ) by {
        assert(tally_or_zero(lookup(before, key1(store))).0 == blobs_in(records, store));
        if key1(store) == key1(rec.store) {
            assert(key1(store)[0] == key1(rec.store)[0]);
        }
    }
}

/// Blobs of two parts are counted apart and added up.
proof fn lemma_parts(a: Seq<BlobRecordView>, b: Seq<BlobRecordView>, store: Seq<char>)
    ensures
        blobs_in(a + b, store) == blobs_in(a, store) + blobs_in(b, store),
        bytes_in(a + b, store) == bytes_in(a, store) + bytes_in(b, store),
    decreases b.len(),
{
    if b.len() == 0 {
        assert(a + b =~= a);
    } else {
        assert((a + b).drop_last() =~= a + b.drop_last());
        lemma_parts(a, b.drop_last(), store);
    }
}

/// The records may be tallied in parts: adding up the tallies of the parts gives
/// the tallies of all the records.
pub proof fn law_parts_tally_to_the_whole(
    left: Seq<(Seq<Seq<char>>, (u64, u64))>,
    right: Seq<(Seq<Seq<char>>, (u64, u64))>,
    both: Seq<(Seq<Seq<char>>, (u64, u64))>,
    a: Seq<BlobRecordView>,
    b: Seq<BlobRecordView>,
)
    requires
        ascending(keys_of(right)),
        tallies_match(left, a),
        tallies_match(right, b),
        mergeable(left, right),
        forall|k: Seq<Seq<char>>| #[trigger]
            lookup(both, k) == combined(lookup(left, k), lookup(right, k)),
    ensures
        tallies_match(both, a + b),
{
    assert forall|store: Seq<char>| #[trigger]
        tally_or_zero(lookup(both, key1(store))).0 == blobs_in(a + b, store) && tally_or_zero(
            lookup(both, key1(store)),
        ).1 == bytes_in(a + b, store) by {
        lemma_parts(a, b, store);
        let k = key1(store);
        assert(tally_or_zero(lookup(left, k)).0 == blobs_in(a, store));
        assert(tally_or_zero(lookup(right, k)).0 == blobs_in(b, store));
        if keys_of(right).contains(k) {
            lemma_rank(keys_of(right), k);
            let i = rank(keys_of(right), k);
            assert(right[i].0 == k);
            assert(sum_fits(tally_or_zero(lookup(left, k)), right[i].1));
        }
    }
}

/// The statistics of a store, from the tallies.
pub open spec fn stats_of(
    entries: Seq<(Seq<Seq<char>>, (u64, u64))>,
    now: Timestamp,
) -> spec_fn(Seq<char>) -> (Seq<char>, StoreStatsRecord) {
    |store: Seq<char>|
        (
            store,
            StoreStatsRecord {
                blob_count: tally_or_zero(lookup(entries, key1(store))).0,
                total_bytes: tally_or_zero(lookup(entries, key1(store))).1,
                updated_at: now,
            },
        )
}

/// The statistics of every configured store, in the order of the stores; a store
/// without blobs gets zeros.
pub fn reconcile_store_stats(
    stores: Vec<String>,
    tallies: &OrderedMap<String, (u64, u64)>,
    now: Timestamp,
) -> (r: Vec<(String, StoreStatsRecord)>)
    ensures
        r.deep_view() == stores.deep_view().map_values(stats_of(tallies@, now)),
{
    let ghost names = stores.deep_view();
    let ghost f = stats_of(tallies@, now);
    let mut out: Vec<(String, StoreStatsRecord)> = Vec::new();
    assert(out.deep_view() =~= names.take(0).map_values(f));
    for store in iter: stores
        invariant
            names == iter.seq().map_values(|s: String| s.deep_view()),
            f == stats_of(tallies@, now),
            out.deep_view() == names.take(iter.index() as int).map_values(f),
    {
        let (blob_count, total_bytes): (u64, u64) = match tallies.get(&store) {
            Some(p) => *p,
            None => (0, 0),
        };
        proof {
            assert(names[iter.index() as int] == store@);
            lemma_map_step(names, f, iter.index() as int);
        }
        push_item(
            &mut out,
            (store, StoreStatsRecord { blob_count, total_bytes, updated_at: now }),
        );
    }
    proof {
        lemma_take_all(names);
        assert(stores.deep_view() =~= names);
    }
    out
}

/// Every configured store is given what the records hold of it, nothing where
/// they hold nothing.
pub proof fn law_stats_are_the_truth(
    entries: Seq<(Seq<Seq<char>>, (u64, u64))>,
    records: Seq<BlobRecordView>,
    store: Seq<char>,
    now: Timestamp,
)
    requires
        tallies_match(entries, records),
    ensures
        stats_of(entries, now)(store).0 == store,
        stats_of(entries, now)(store).1.blob_count == blobs_in(records, store),
        stats_of(entries, now)(store).1.total_bytes == bytes_in(records, store),
{
    assert(tally_or_zero(lookup(entries, key1(store))).0 == blobs_in(records, store));
}

} // verus!
