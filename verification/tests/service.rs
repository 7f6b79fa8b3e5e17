//! Copying records, blob records and store statistics.
use artifact_depot::error::DepotError;
use artifact_depot::helm::promote::{
    chart_path, check_chart, check_chart_collision, delete_chart, move_finish, MoveFinish,
    MoveOutcome,
};
use artifact_depot::helm::transfer::{
    chart_steps, is_reply, move_chart, ChartJob, ChartStep, MoveAction, MoveEvent, MoveState,
};
use artifact_depot::ordered::OrderedMap;
use artifact_depot::service::blob::{
    claim_or_reuse_blob, count_blobs_for_store, list_blobs_for_store, put_blob, put_dedup_record,
    DedupEvent, DedupStep,
};
use artifact_depot::service::promote::{
    can_delta, credits, delta, removal_delta, settle_upload, settle_verbatim, to_signed, CopyStep,
    CopyTarget,
};
use artifact_depot::service::records::{
    ArtifactKind, ArtifactRecord, BlobRecord, CURRENT_RECORD_VERSION,
};
use artifact_depot::service::store::{
    can_merge, can_tally, merge_tallies, reconcile_store_stats, tally_blob,
};
use artifact_depot::time::Timestamp;

fn s(t: &str) -> String {
    t.to_string()
}

fn at(secs: i64) -> Timestamp {
    Timestamp { secs, nanos: 0 }
}

fn record(blob_id: Option<&str>, hash: Option<&str>) -> ArtifactRecord {
    ArtifactRecord {
        schema_version: CURRENT_RECORD_VERSION,
        id: s("id"),
        size: 4,
        content_type: s("text/plain"),
        kind: ArtifactKind::Raw,
        created_at: at(1),
        updated_at: at(2),
        last_accessed_at: at(3),
        path: s("p"),
        internal: false,
        blob_id: blob_id.map(s),
        content_hash: hash.map(s),
        etag: Some(s("e")),
    }
}

fn target(dest_store: &str) -> CopyTarget<'_> {
    CopyTarget { source_repo: "src", source_store: "s1", dest_repo: "dst", dest_store }
}

#[test]
fn records_are_copied_verbatim_within_a_store() {
    assert!(target("s1").same_store() && !target("s2").same_store());
    assert_eq!(target("s1").copy_record(None), CopyStep::Absent);
    assert_eq!(
        target("s1").copy_record(Some(record(Some("b"), None))),
        CopyStep::Verbatim(record(Some("b"), None))
    );
    let r = settle_verbatim(record(Some("b"), None));
    assert_eq!((r.record, r.added, r.drop_upload), (record(Some("b"), None), 0, false));
    // Across stores only a record with a blob has bytes to move.
    assert_eq!(
        target("s2").copy_record(Some(record(None, None))),
        CopyStep::Verbatim(record(None, None))
    );
    assert_eq!(
        target("s2").copy_record(Some(record(Some(""), None))),
        CopyStep::Verbatim(record(Some(""), None))
    );
    assert_eq!(
        target("s2").copy_record(Some(record(Some("b"), None))),
        CopyStep::Rehome { record: record(Some("b"), None), blob_id: s("b") }
    );
}

#[test]
fn uploads_are_recorded_under_a_fresh_id() {
    let t = target("s2");
    let rec = record(Some("b"), None);
    let up = t.rehome_blob(&rec, "b", Some(b"abcd"), at(9)).unwrap();
    let again = t.rehome_blob(&rec, "b", Some(b"abcd"), at(9)).unwrap();
    assert_ne!(up.blob_id, again.blob_id);
    assert_eq!(uuid::Uuid::parse_str(&up.blob_id).unwrap().get_version_num(), 4);
    // The blake3 hash of the four bytes.
    assert_eq!(up.hash, blake3::hash(b"abcd").to_hex().to_string());
    assert_eq!(up.hash.len(), 64);
    assert_eq!((up.size, up.created_at, up.store.as_str()), (4, at(9), "s2"));
    assert_eq!(up.schema_version, CURRENT_RECORD_VERSION);
    // A known hash is taken over.
    let known = t.rehome_blob(&record(Some("b"), Some("h")), "b", Some(b"abcd"), at(9)).unwrap();
    assert_eq!(known.hash, "h");
    assert_eq!(
        t.rehome_blob(&rec, "b", None, at(9)),
        Err(DepotError::DataIntegrity(s("blob b missing in source store 's1'")))
    );
    assert_eq!(t.upload_as(&rec, b"", s("n"), at(0)).hash.as_str(),
        "af1349b9f5f9a1a6a0404dea36dcc9499bcb25c9adc112b7cc9a93cae41f3262");
}

#[test]
fn known_content_is_reused() {
    let t = target("s2");
    let up = t.upload_as(&record(Some("b"), None), b"abcd", s("new"), at(9));
    let r = settle_upload(record(Some("b"), None), &up, Some(s("old")));
    assert_eq!((r.added, r.drop_upload), (0, true));
    assert_eq!(r.record, record(Some("old"), None));
    let r = settle_upload(record(Some("b"), None), &up, None);
    assert_eq!((r.added, r.drop_upload), (4, false));
    assert_eq!(r.record, record(Some("new"), None));
}

#[test]
fn counters_move_by_the_difference() {
    assert_eq!(delta(10, None), (1, 10));
    assert_eq!(delta(10, Some(4)), (0, 6));
    assert_eq!(delta(4, Some(10)), (0, -6));
    assert_eq!(delta(u64::MAX, None), (1, -1));
    assert_eq!(removal_delta(7), (-1, -7));
    assert_eq!(to_signed(0x8000_0000_0000_0000), i64::MIN);
    assert!(can_delta(0x7fff_ffff_ffff_ffff, Some(0)));
    assert!(!can_delta(0x8000_0000_0000_0000, Some(1)));
    let c = credits(10, Some(4), false, 0);
    assert_eq!((c.directory, c.store), ((0, 6), None));
    assert_eq!(credits(10, None, true, 10).store, Some((1, 10)));
}

#[test]
fn an_empty_blob_counts_once_it_is_stored() {
    let t = target("s2");
    let rec = || {
        let mut r = record(Some("b"), None);
        r.size = 0;
        r
    };
    let up = t.upload_as(&rec(), b"", s("new"), at(9));
    let r = settle_upload(rec(), &up, None);
    assert_eq!((r.stored, r.added, r.drop_upload), (true, 0, false));
    let c = credits(0, None, r.stored, r.added);
    assert_eq!((c.directory, c.store), ((1, 0), Some((1, 0))));
    // Content that the store has already adds neither a blob nor bytes.
    let r = settle_upload(rec(), &up, Some(s("old")));
    assert_eq!((r.stored, r.added, r.drop_upload), (false, 0, true));
    assert_eq!(credits(0, None, r.stored, r.added).store, None);
    assert!(!settle_verbatim(rec()).stored);
}

fn blob(id: &str, hash: &str, size: u64, store: &str) -> BlobRecord {
    BlobRecord {
        schema_version: CURRENT_RECORD_VERSION,
        blob_id: s(id),
        hash: s(hash),
        size,
        created_at: at(1),
        store: s(store),
    }
}

#[test]
fn hashes_are_claimed_once() {
    assert_eq!(put_blob("t", &blob("b", "h", 1, "other")), blob("b", "h", 1, "t"));
    assert_eq!(put_dedup_record(DedupEvent::PutIfAbsent(true)), DedupStep::Done(None));
    assert_eq!(put_dedup_record(DedupEvent::PutIfAbsent(false)), DedupStep::ReadExisting);
    assert_eq!(
        put_dedup_record(DedupEvent::Read(Some(blob("old", "h", 1, "t")))),
        DedupStep::Done(Some(s("old")))
    );
    assert_eq!(put_dedup_record(DedupEvent::Read(None)), DedupStep::Put);
    assert_eq!(put_dedup_record(DedupEvent::Written), DedupStep::Done(None));

    let mine = blob("mine", "h", 1, "t");
    let c = claim_or_reuse_blob(&mine, None);
    assert_eq!((c.blob_id.as_str(), c.drop_duplicate), ("mine", false));
    let c = claim_or_reuse_blob(&mine, Some(s("mine")));
    assert_eq!((c.blob_id.as_str(), c.drop_duplicate), ("mine", false));
    let c = claim_or_reuse_blob(&mine, Some(s("old")));
    assert_eq!((c.blob_id.as_str(), c.drop_duplicate), ("old", true));
}

#[test]
fn blobs_are_listed_by_hash() {
    let shards = || {
        vec![
            vec![blob("1", "c", 1, "t"), blob("2", "a", 1, "t")],
            vec![],
            vec![blob("3", "b", 1, "t"), blob("4", "a", 1, "t")],
        ]
    };
    let ids = |(page, total): (Vec<BlobRecord>, usize)| {
        (page.into_iter().map(|b| b.blob_id).collect::<Vec<_>>(), total)
    };
    assert_eq!(
        ids(list_blobs_for_store(shards(), 0, 10)),
        (vec![s("2"), s("4"), s("3"), s("1")], 4)
    );
    assert_eq!(ids(list_blobs_for_store(shards(), 1, 2)), (vec![s("4"), s("3")], 4));
    assert_eq!(ids(list_blobs_for_store(shards(), 4, 2)), (vec![], 4));
    assert_eq!(ids(list_blobs_for_store(shards(), 9, usize::MAX)), (vec![], 4));
    assert_eq!(ids(list_blobs_for_store(shards(), 0, 0)), (vec![], 4));
    assert_eq!(count_blobs_for_store(&[2, 0, 2]), 4);
    assert_eq!(count_blobs_for_store(&[]), 0);
}

#[test]
fn store_statistics_follow_the_blobs() {
    let blobs = [
        blob("1", "a", 10, "t"),
        blob("2", "b", 20, "u"),
        blob("3", "c", 30, "t"),
        blob("4", "d", 40, "gone"),
    ];
    let tally = |part: &[BlobRecord]| {
        let mut m: OrderedMap<String, (u64, u64)> = OrderedMap::new();
        for b in part {
            assert!(can_tally(&m, b));
            tally_blob(&mut m, b);
        }
        m
    };
    // The parts add up to the whole.
    let mut left = tally(&blobs[..2]);
    let right = tally(&blobs[2..]);
    assert!(can_merge(&left, &right));
    merge_tallies(&mut left, &right);
    let whole = tally(&blobs);
    for store in ["t", "u", "gone", "empty"] {
        assert_eq!(left.get(&s(store)), whole.get(&s(store)));
    }
    let stats = reconcile_store_stats(vec![s("u"), s("empty"), s("t")], &whole, at(5));
    let got: Vec<(&str, u64, u64)> = stats
        .iter()
        .map(|(n, r)| (n.as_str(), r.blob_count, r.total_bytes))
        .collect();
    assert_eq!(got, vec![("u", 1, 20), ("empty", 0, 0), ("t", 2, 40)]);
    assert!(stats.iter().all(|(_, r)| r.updated_at == at(5)));
}

#[test]
fn full_counters_are_told() {
    let mut m: OrderedMap<String, (u64, u64)> = OrderedMap::new();
    m.insert(s("t"), (1, u64::MAX - 5));
    assert!(can_tally(&m, &blob("1", "a", 5, "t")));
    assert!(!can_tally(&m, &blob("1", "a", 6, "t")));
    let mut n: OrderedMap<String, (u64, u64)> = OrderedMap::new();
    n.insert(s("t"), (u64::MAX, 0));
    assert!(!can_tally(&n, &blob("1", "a", 0, "t")));
    assert!(!can_merge(&m, &n));
    assert!(can_merge(&m, &OrderedMap::new()));
}

fn chart() -> ArtifactRecord {
    let mut r = record(Some("b"), None);
    r.kind = ArtifactKind::HelmChart { name: s("app"), version: s("1.0") };
    r
}

#[test]
fn charts_are_checked_before_they_move() {
    let t = target("s1");
    assert_eq!(chart_path("app", "1.0"), "app-1.0.tgz");
    assert_eq!(check_chart(&t, "app", "1.0", Some(&chart())), Ok(()));
    assert_eq!(
        check_chart(&t, "app", "1.0", None),
        Err(DepotError::NotFound(s("chart 'app-1.0' not found in repository 'src'")))
    );
    assert_eq!(
        check_chart(&t, "app", "1.0", Some(&record(None, None))),
        Err(DepotError::DataIntegrity(s("record at 'app-1.0.tgz' in 'src' is not a Helm chart")))
    );
    assert_eq!(check_chart_collision(&t, "app", "1.0", false, false), Ok(()));
    assert_eq!(check_chart_collision(&t, "app", "1.0", true, true), Ok(()));
    assert_eq!(
        check_chart_collision(&t, "app", "1.0", false, true),
        Err(DepotError::Conflict(s(
            "chart 'app-1.0' already exists in repository 'dst' (set overwrite to replace)"
        )))
    );
}

#[test]
fn indexes_are_stale_where_charts_changed() {
    let m = move_finish("app", "1.0", true, true);
    assert!(m.dest_stale && m.source_stale);
    assert_eq!(m.outcome.chart_path, "app-1.0.tgz");
    assert_eq!((m.outcome.copied_records, m.outcome.source_deleted), (1, true));
    let m = move_finish("app", "1.0", false, false);
    assert!(!m.dest_stale && !m.source_stale);
    assert_eq!(m.outcome.copied_records, 0);
    assert_eq!(delete_chart(Some(&chart())), Some((-1, -4)));
    assert_eq!(delete_chart(None), None);
}

/// Run a move on a source record: the actions in order.
fn run_move(
    job: &ChartJob,
    source: fn() -> Option<ArtifactRecord>,
    taken: bool,
    found: bool,
) -> Vec<MoveAction> {
    let t = target("s1");
    let (mut state, mut event) = (MoveState::Start, MoveEvent::Begin);
    let mut done = Vec::new();
    loop {
        assert!(is_reply(&state, &event));
        let (next, action) = move_chart(&t, job, state, event);
        state = next;
        event = match &action {
            MoveAction::ReadSource(_) => MoveEvent::Source(source()),
            MoveAction::ReadDest(_) => MoveEvent::Dest(taken),
            MoveAction::Copy(_) => MoveEvent::Copied(found),
            MoveAction::DeleteSource(_) => MoveEvent::Deleted(found),
            MoveAction::Done(_) | MoveAction::Fail(_) => {
                done.push(action);
                return done;
            }
        };
        done.push(action);
    }
}

fn job(delete_source: bool, overwrite: bool) -> ChartJob<'static> {
    ChartJob { name: "app", version: "1.0", delete_source, overwrite }
}

fn end(copied: bool, source_deleted: bool) -> MoveAction {
    MoveAction::Done(MoveFinish {
        dest_stale: copied,
        source_stale: source_deleted,
        outcome: MoveOutcome {
            chart_path: s("app-1.0.tgz"),
            copied_records: u64::from(copied),
            source_deleted,
        },
    })
}

#[test]
fn a_chart_is_copied_before_its_source_goes() {
    let path = || s("app-1.0.tgz");
    assert_eq!(chart_steps("app", "1.0", false), vec![ChartStep::Copy(path())]);
    assert_eq!(
        chart_steps("app", "1.0", true),
        vec![ChartStep::Copy(path()), ChartStep::DeleteSource(path())]
    );
    assert_eq!(
        run_move(&job(true, false), || Some(chart()), false, true),
        vec![
            MoveAction::ReadSource(path()),
            MoveAction::ReadDest(path()),
            MoveAction::Copy(path()),
            MoveAction::DeleteSource(path()),
            end(true, true),
        ]
    );
    // A copy keeps the source, and marks the destination alone.
    assert_eq!(
        run_move(&job(false, false), || Some(chart()), false, true),
        vec![
            MoveAction::ReadSource(path()),
            MoveAction::ReadDest(path()),
            MoveAction::Copy(path()),
            end(true, false),
        ]
    );
    // What may be overwritten is not looked at.
    assert_eq!(
        run_move(&job(true, true), || Some(chart()), true, true),
        vec![
            MoveAction::ReadSource(path()),
            MoveAction::Copy(path()),
            MoveAction::DeleteSource(path()),
            end(true, true),
        ]
    );
    // A record that went away meanwhile changes nothing.
    assert_eq!(
        run_move(&job(true, true), || Some(chart()), false, false).last(),
        Some(&end(false, false))
    );
}

#[test]
fn a_refused_chart_changes_nothing() {
    let path = || s("app-1.0.tgz");
    // The source comes first, whatever the destination holds.
    assert_eq!(
        run_move(&job(true, false), || None, true, true),
        vec![
            MoveAction::ReadSource(path()),
            MoveAction::Fail(DepotError::NotFound(s(
                "chart 'app-1.0' not found in repository 'src'"
            ))),
        ]
    );
    assert_eq!(
        run_move(&job(true, false), || Some(record(None, None)), true, true),
        vec![
            MoveAction::ReadSource(path()),
            MoveAction::Fail(DepotError::DataIntegrity(s(
                "record at 'app-1.0.tgz' in 'src' is not a Helm chart"
            ))),
        ]
    );
    assert_eq!(
        run_move(&job(true, false), || Some(chart()), true, true),
        vec![
            MoveAction::ReadSource(path()),
            MoveAction::ReadDest(path()),
            MoveAction::Fail(DepotError::Conflict(s(
                "chart 'app-1.0' already exists in repository 'dst' (set overwrite to replace)"
            ))),
        ]
    );
}

#[test]
fn a_move_awaits_the_answer_to_its_action() {
    assert!(is_reply(&MoveState::Start, &MoveEvent::Begin));
    assert!(!is_reply(&MoveState::Start, &MoveEvent::Dest(true)));
    assert!(!is_reply(&MoveState::Source, &MoveEvent::Begin));
    assert!(!is_reply(&MoveState::Dest, &MoveEvent::Copied(true)));
    assert!(!is_reply(&MoveState::Finished, &MoveEvent::Begin));
    let write = |at: usize| MoveState::Write {
        steps: chart_steps("app", "1.0", true),
        at,
        copied: false,
        deleted: false,
    };
    assert!(is_reply(&write(0), &MoveEvent::Copied(true)));
    assert!(!is_reply(&write(0), &MoveEvent::Deleted(true)));
    assert!(is_reply(&write(1), &MoveEvent::Deleted(true)));
    assert!(!is_reply(&write(2), &MoveEvent::Deleted(true)));
}
