//! The report of a resolved plan, line by line.
use artifact_depot::ordered::OrderedMap;
use artifact_depot::reorg::collisions::SupersededItem;
use artifact_depot::reorg::config::{
    all_groups, check_selection, delete_group, ReorgConfig, GROUP_MISMATCH, GROUP_MOVE,
    GROUP_REDUNDANT, GROUP_SUPERSEDED,
};
use artifact_depot::reorg::evidence::{can_shorten, date_only, short, MismatchInfo, TriageItem};
use artifact_depot::reorg::plan::{DeleteItem, PlannedMove, TagRef};
use artifact_depot::reorg::report::{
    all_showable, for_you_total, group_counts, print_delete_listing, print_group_sections,
    print_mismatch_evidence, print_summary,
};
use artifact_depot::reorg::resolve::ResolvedPlan;
use artifact_depot::reorg::review::{
    print_destination_retention, print_plan, print_review_only, print_verbose_moves,
    pulled_before, pulled_within, stale_count,
};
use artifact_depot::reorg::rules::MismatchPolicy;
use artifact_depot::reorg::summary::{
    print_repo_summary, settle_step, settled, summarize_repos, RepoInfo, RepoRow, SettleStep,
    SummaryRows,
};
use artifact_depot::time::{days_between, Timestamp};

fn tag(repo: &str, image: &str, tag: &str) -> TagRef {
    TagRef { source_repo: repo.to_string(), image: image.to_string(), tag: tag.to_string() }
}

fn mv(repo: &str, image: &str, tag: &str, dest: &str) -> PlannedMove {
    PlannedMove {
        source_repo: repo.to_string(),
        image: image.to_string(),
        tag: tag.to_string(),
        dest: dest.to_string(),
        class: "c".to_string(),
    }
}

fn delete(t: TagRef, reason: &str) -> DeleteItem {
    DeleteItem { tag: t, reason: reason.to_string() }
}

fn mismatch(source: Option<&str>, check: Option<&str>, policy: MismatchPolicy) -> MismatchInfo {
    MismatchInfo {
        tag: tag("src", "app/x", "1.0.0"),
        check_repo: "insight".to_string(),
        source_digest: "sha256:aaaaaaaaaaaaaaaa".to_string(),
        check_digest: "bbbbbbbbbbbbbbbbbb".to_string(),
        source_built: source.map(String::from),
        check_built: check.map(String::from),
        on_mismatch: policy,
    }
}

fn full_plan() -> ResolvedPlan {
    let mut p = ResolvedPlan::new();
    p.moves.push(mv("int", "app/b", "2", "pre"));
    p.moves.push(mv("ext", "app/a", "1", "pre"));
    p.moves.push(mv("int", "app/c", "3", "dev"));
    p.deletes.push(delete(tag("int", "app/z", "9"), "identical digest already in i (redundant duplicate)"));
    p.deletes.push(delete(tag("int", "app/d", "4"), "identical digest already in i (redundant duplicate)"));
    p.deletes.push(delete(tag("int", "app/e", "5"), "superseded (a newer copy is kept elsewhere)"));
    p.created.insert(("int".to_string(), "app/d".to_string(), "4".to_string()), "2024-01-02".to_string());
    p.superseded.push(SupersededItem {
        tag: tag("int", "app/f", "6"),
        dest: "pre".to_string(),
        kept: "existing copy in pre".to_string(),
        own_built: Some("2025-05-05T10:00:00Z".to_string()),
        winner_built: None,
    });
    p.mismatched.push(mismatch(Some("2024-01-01"), Some("2024-02-01"), MismatchPolicy::Delete));
    p.mismatched.push(mismatch(Some("2024-03-01"), Some("2024-02-01"), MismatchPolicy::Delete));
    p.prefix_deletes.push(tag("int", "old/b", "2"));
    p.prefix_deletes.push(tag("int", "old/a", "1"));
    p.prefix_deletes.push(tag("int", "old/b", "1"));
    p.non_released.push(tag("insight", "app/g", "develop"));
    p.copy_upstream.push(tag("insight", "app/g", "1.2.3"));
    p.insight_absent.push(tag("int", "app/h", "7"));
    p.purges.push(tag("dead", "lib/x", "1"));
    p.purges.push(tag("dead", "lib/y", "1"));
    p.needs_classification.push(TriageItem {
        tag: tag("int", "app/n", "2"),
        upstream_present: false,
        upstream_same_digest: false,
    });
    p.needs_classification.push(TriageItem {
        tag: tag("int", "app/n", "1"),
        upstream_present: true,
        upstream_same_digest: true,
    });
    p.leaves.push(tag("int", "app/l", "x"));
    p.kept.push(tag("insight", "app/k", "1"));
    p.already_placed = 12;
    p
}

fn classes() -> OrderedMap<String, Vec<String>> {
    let mut m: OrderedMap<String, Vec<String>> = OrderedMap::new();
    m.insert("pre".to_string(), vec!["prerelease".to_string(), "develop".to_string()]);
    m
}

#[test]
fn counts_follow_the_groups() {
    let counts = group_counts(&full_plan());
    let pairs: Vec<(&str, usize)> = counts.iter().map(|(n, c, _)| (*n, *c)).collect();
    assert_eq!(
        pairs,
        vec![
            ("move", 3),
            ("redundant", 2),
            ("superseded", 1),
            ("mismatch", 1),
            ("retired", 3),
            ("non-released", 1),
        ]
    );
    // One mismatch, one absent, one superseded, one for upstream, two
    // unclassified, one unmatched, one kept.
    assert_eq!(for_you_total(&full_plan()), 8);
}

#[test]
fn summary_is_printed_exactly() {
    let lines = print_summary(&full_plan(), true);
    assert_eq!(
        lines,
        vec![
            "Nothing is changed until you re-run with --apply. Each line below is one".to_string(),
            "independent group \u{2014} pass the ones you want (comma-separated), or 'all':".to_string(),
            String::new(),
            format!("    {:<22} {:>6} tag(s)   {}", "--apply move", 3, "re-home tags to their correct repository"),
            format!("    {:<22} {:>6} tag(s)   {}", "--apply redundant", 2, "delete source copies identical to the insight copy"),
            format!("    {:<22} {:>6} tag(s)   {}", "--apply superseded", 1, "delete older source copies (a newer copy is kept)"),
            format!("    {:<22} {:>6} tag(s)   {}", "--apply mismatch", 1, "delete source copies that differ from insight (insight authoritative)"),
            format!("    {:<22} {:>6} tag(s)   {}", "--apply retired", 3, "delete tags under retired namespaces"),
            format!("    {:<22} {:>6} tag(s)   {}", "--apply non-released", 1, "delete non-x.y.z tags the upstream doesn't serve from the LOCAL insight cache"),
            String::new(),
            "    e.g.   --apply move,redundant        --apply all".to_string(),
            "    (--copy makes 'move' a non-destructive copy and skips every delete group)".to_string(),
            "\nNOT touched by any group (review only): 8 \u{2014} 1 mismatch(source newer) \u{b7} 1 superseded(source newer) \u{b7} 1 copy-upstream \u{b7} 1 restore-candidate \u{b7} 2 unclassified \u{b7} 1 unmatched".to_string(),
            "Already in the right place (no change needed): 12".to_string(),
        ]
    );
    let mut p = ResolvedPlan::new();
    p.non_released_note = Some("no upstream".to_string());
    let lines = print_summary(&p, false);
    assert!(lines.contains(&"    (non-released count unavailable \u{2014} no upstream)".to_string()));
    assert!(!lines.iter().any(|l| l.contains("--copy makes")));
}

#[test]
fn deletions_are_listed_in_order_with_their_dates() {
    assert_eq!(
        print_delete_listing(&full_plan(), GROUP_REDUNDANT),
        vec!["     int/app/d:4 (created 2024-01-02)", "     int/app/z:9 (created ?)"]
    );
    assert_eq!(
        print_delete_listing(&full_plan(), GROUP_SUPERSEDED),
        vec!["     int/app/e:5 (created ?)"]
    );
}

#[test]
fn mismatch_evidence_is_printed_exactly() {
    let m = mismatch(Some("2024-01-01"), None, MismatchPolicy::Delete);
    let lines = print_mismatch_evidence(&m);
    assert_eq!(lines[0], "            source (src): created 2024-01-01  [sha256:aaaaaaaaaaaa]");
    assert_eq!(lines[1], "            check  (insight): created ?  [bbbbbbbbbbbb]");
    assert_eq!(lines[2], format!("            -> {}", m.assessment()));
    assert_eq!(lines[3], format!("            -> {}", m.recommendation()));
    assert_eq!(lines.len(), 4);
}

#[test]
fn group_sections_are_printed_exactly() {
    let p = full_plan();
    assert!(all_showable(&p.mismatched));
    let lines = print_group_sections(&p, false, false, &classes());
    let mut want: Vec<String> = vec![
        "\n\u{25b8} `--apply move` \u{2014} re-home tags to their correct repository \u{2014} 3 to be moved".to_string(),
        format!("     \u{2192} {:<28} {:>7}", "dev", 1),
        format!("     \u{2192} {:<28} {:>7}   (prerelease, develop)", "pre", 2),
        "     from: ext 1 \u{b7} int 2".to_string(),
        "     (full per-tag list: --verbose)".to_string(),
        "\n\u{25b8} `--apply redundant` \u{2014} delete source copies identical to the insight copy \u{2014} 2 to be deleted".to_string(),
        "     int/app/d:4 (created 2024-01-02)".to_string(),
        "     int/app/z:9 (created ?)".to_string(),
        "\n\u{25b8} `--apply superseded` \u{2014} delete older source copies (a newer copy is kept) \u{2014} 1 to be deleted".to_string(),
        "     int/app/e:5 (created ?)".to_string(),
        "     plus 1 kept for REVIEW \u{2014} the source copy is NEWER than the kept copy:".to_string(),
        "     int/app/f:6 (created 2025-05-05) \u{2014} kept existing copy in pre (created ?)".to_string(),
        "\n\u{25b8} `--apply mismatch` \u{2014} delete source copies that differ from insight (insight authoritative) \u{2014} 1 to be deleted from source; 1 kept for review".to_string(),
        "     src/app/x:1.0.0  [DELETE on --apply mismatch]".to_string(),
    ];
    want.extend(print_mismatch_evidence(&p.mismatched[0]));
    want.push("     src/app/x:1.0.0  [KEPT for review]".to_string());
    want.extend(print_mismatch_evidence(&p.mismatched[1]));
    want.extend([
        "\n\u{25b8} `--apply retired` \u{2014} delete tags under retired namespaces \u{2014} 3 to be deleted from source".to_string(),
        "     in int:".to_string(),
        "        old/a: 1".to_string(),
        "        old/b: 1, 2".to_string(),
        "\n\u{25b8} `--apply non-released` \u{2014} delete non-x.y.z tags the upstream doesn't serve from the LOCAL insight cache \u{2014} 1 to be deleted from the local cache".to_string(),
        "     app/g: develop".to_string(),
        "     plus 1 released x.y.z tag(s) the UPSTREAM is missing \u{2192} copy them upstream (review, never deleted):".to_string(),
        "        app/g: 1.2.3".to_string(),
    ]);
    assert_eq!(lines, want);
}

#[test]
fn group_sections_of_an_empty_plan() {
    let mut p = ResolvedPlan::new();
    p.non_released_note = Some("n".to_string());
    let lines = print_group_sections(&p, true, true, &OrderedMap::new());
    assert_eq!(lines.len(), 7);
    assert!(lines[0].ends_with("0 to be copied"));
    assert_eq!(lines[6], "     unavailable \u{2014} n");
}

#[test]
fn review_only_is_printed_exactly() {
    assert!(print_review_only(&ResolvedPlan::new()).is_empty());
    assert_eq!(
        print_review_only(&full_plan()),
        vec![
            "\n\u{25b8} Review only \u{2014} no --apply group touches these:",
            "\n  Restore-to-insight candidates (1)  \u{2192} push to insight, or delete as stale (may have been pruned)",
            "     in int:",
            "        app/h: 7 (created ?)",
            "\n  Purge-repo remainder (2)  \u{2192} dead cache; first-party already re-homed, delete the repo wholesale: dead (2)",
            "\n  Needs classification (2)  \u{2192} add each image to insight_images or aux_images, then re-run",
            "     app/n \u{2014} absent upstream \u{2192} likely an AUX image \u{2014} 1, 2",
            "\n  Unmatched (1)  \u{2192} no rule matched; add a rule or leave in place",
            "     app/l: x",
            "\n  Kept (1)  \u{2192} already present in the check repo, left in place (informational)",
        ]
    );
}

#[test]
fn plan_is_summary_sections_and_review() {
    let p = full_plan();
    let mut want = vec!["================ Reorg plan ================".to_string()];
    want.extend(print_summary(&p, false));
    want.extend(print_group_sections(&p, false, true, &classes()));
    want.extend(print_review_only(&p));
    assert_eq!(print_plan(&p, false, true, &classes()), want);
}

#[test]
fn verbose_moves_are_listed_by_destination() {
    assert!(print_verbose_moves(&ResolvedPlan::new()).is_empty());
    assert_eq!(
        print_verbose_moves(&full_plan()),
        vec![
            "\n================ Detail (--verbose) \u{2014} every automatic move ================",
            "\n\u{2192} dev  (1 tag(s)):",
            "     int/app/c:3",
            "\n\u{2192} pre  (2 tag(s)):",
            "     ext/app/a:1",
            "     int/app/b:2",
        ]
    );
}

fn noon(secs: i64) -> Timestamp {
    Timestamp { secs, nanos: 0 }
}

/// 2024-03-11T00:00:00Z.
const NOW: i64 = 1_710_115_200;

#[test]
fn retention_warns_of_moves_that_would_expire() {
    let mut p = ResolvedPlan::new();
    assert!(print_destination_retention(&p, &OrderedMap::new(), &OrderedMap::new(), noon(NOW)).is_empty());
    p.moves.push(mv("s", "app/a", "fresh", "both"));
    p.moves.push(mv("s", "app/a", "stale", "both"));
    p.moves.push(mv("s", "app/a", "never", "both"));
    p.moves.push(mv("s", "app/a", "1", "age"));
    p.moves.push(mv("s", "app/a", "1", "none"));
    let mut cleanup: OrderedMap<String, (Option<u32>, Option<u32>)> = OrderedMap::new();
    cleanup.insert("both".to_string(), (Some(90), Some(30)));
    cleanup.insert("age".to_string(), (Some(7), None));
    let mut atimes: OrderedMap<(String, String), String> = OrderedMap::new();
    atimes.insert(("app/a".to_string(), "fresh".to_string()), "2024-02-10T00:00:00Z".to_string());
    atimes.insert(("app/a".to_string(), "stale".to_string()), "2024-02-08T23:00:00+00:00".to_string());
    assert_eq!(
        print_destination_retention(&p, &cleanup, &atimes, noon(NOW)),
        vec![
            "\n================ Destination retention \u{2014} will the moved tags survive? ================",
            "  \u{26a0} age: max_age=7d (creation) \u{2014} 1 move(s); expiry is by creation age (not checked here) \u{2014} review",
            "  \u{26a0} both: max_age=90d (creation), max_unaccessed=30d (last pull) \u{2014} 3 move(s); 1 last pulled older than 30d \u{2192} likely to expire after the move",
            "  none: no cleanup policy \u{2014} 1 move(s) are permanent \u{2713}",
        ]
    );
    // Exactly thirty days ago is not stale; a date alone is no timestamp, and what
    // is not known to have been pulled is not counted.
    assert_eq!(stale_count(&p.moves[..1], &atimes, noon(NOW), 30), 0);
    assert_eq!(stale_count(&p.moves[..1], &atimes, noon(NOW), 29), 1);
    let mut dates: OrderedMap<(String, String), String> = OrderedMap::new();
    dates.insert(("app/a".to_string(), "fresh".to_string()), "2024-03-10".to_string());
    assert_eq!(stale_count(&p.moves[..1], &dates, noon(NOW), 30), 0);
    assert_eq!(stale_count(&p.moves, &OrderedMap::new(), noon(NOW), 0), 0);
}

#[test]
fn days_are_counted_whole() {
    let day = 86_400;
    let at = |secs: i64, nanos: u32| Timestamp { secs, nanos };
    assert_eq!(days_between(at(0, 0), at(day, 0)), 1);
    assert_eq!(days_between(at(0, 1), at(day, 0)), 0);
    assert_eq!(days_between(at(day, 0), at(0, 1)), 0);
    assert_eq!(days_between(at(2 * day, 0), at(0, 0)), -2);
    assert_eq!(days_between(at(i64::MIN, 0), at(i64::MAX, 0)), 213_503_982_334_601);
    // The same as the difference of the parsed times, in leap seconds too.
    let stamps = [
        "2024-02-10T12:00:00Z",
        "2024-02-10T12:00:60Z",
        "2024-02-10T12:00:60.5Z",
        "2024-03-11T12:01:00.25Z",
        "2024-03-11T12:00:59.75Z",
        "2024-03-11T12:00:60.75+00:30",
        "1969-12-31T23:59:60Z",
        "1960-01-01T00:00:00.5-05:00",
        "2024-03-11T00:00:00Z",
    ];
    for a in stamps {
        for b in stamps {
            let (x, y) = (
                chrono::DateTime::parse_from_rfc3339(a).unwrap(),
                chrono::DateTime::parse_from_rfc3339(b).unwrap(),
            );
            let point = |t: &chrono::DateTime<chrono::FixedOffset>| {
                at(t.timestamp(), t.timestamp_subsec_nanos())
            };
            assert_eq!(days_between(point(&x), point(&y)), (y - x).num_days(), "{a} {b}");
        }
    }
}

#[test]
fn pulls_are_held_against_the_window() {
    assert!(pulled_within(Some(30), 30) && !pulled_before(Some(30), 30));
    assert!(!pulled_within(Some(31), 30) && pulled_before(Some(31), 30));
    assert!(pulled_within(Some(-1), 0) && !pulled_before(Some(-1), 0));
    // An age that is not known is on neither side.
    assert!(!pulled_within(None, 30) && !pulled_before(None, 30));
}

#[test]
fn counters_are_read_until_they_settle() {
    let read = |n: u64| summarize_repos(&[info("a", "hosted", "docker", n, 1)], &["a".to_string()], vec![]);
    assert_eq!(settle_step(1, &read(5), &read(5)), SettleStep::Done);
    assert_eq!(settle_step(1, &read(5), &read(6)), SettleStep::Wait);
    assert_eq!(settle_step(9, &read(5), &read(6)), SettleStep::Wait);
    assert_eq!(settle_step(10, &read(5), &read(6)), SettleStep::Done);
}

fn info(name: &str, repo_type: &str, format: &str, artifacts: u64, bytes: u64) -> RepoInfo {
    RepoInfo {
        name: name.to_string(),
        repo_type: repo_type.to_string(),
        format: format.to_string(),
        artifact_count: artifacts,
        total_bytes: bytes,
    }
}

#[test]
fn repositories_are_measured_in_scope_order() {
    let all = vec![
        info("a", "hosted", "docker", 1, 10),
        info("b", "proxy", "docker", 2, 100),
        info("c", "cache", "helm", 3, 1000),
    ];
    let scope = vec!["c".to_string(), "missing".to_string(), "b".to_string()];
    let s = summarize_repos(&all, &scope, vec![("s".to_string(), 5, 6)]);
    assert_eq!(
        s.repos.iter().map(|r| (r.name.as_str(), r.artifacts, r.bytes)).collect::<Vec<_>>(),
        vec![("c", 3, 1000), ("b", 2, 100)]
    );
    assert_eq!((s.logical_sum, s.docker_logical), (1010, 10));
    assert_eq!(s.stores, vec![("s".to_string(), 5, 6)]);

    let mut later = vec![
        info("a", "hosted", "docker", 1, 99),
        info("b", "proxy", "docker", 2, 99),
        info("c", "cache", "helm", 3, 99),
    ];
    assert!(settled(&s, &summarize_repos(&later, &scope, vec![])));
    later[2].artifact_count = 4;
    assert!(!settled(&s, &summarize_repos(&later, &scope, vec![])));
    assert!(!settled(&s, &summarize_repos(&later, &scope[..1], vec![])));
}

fn rows(artifacts: u64, size: &str) -> SummaryRows {
    SummaryRows {
        repos: vec![RepoRow {
            name: "repo-a".to_string(),
            repo_type: "hosted".to_string(),
            artifacts,
            size: size.to_string(),
        }],
        logical: size.to_string(),
        docker: "0.1 GB".to_string(),
        stores: vec![("default".to_string(), size.to_string(), artifacts)],
    }
}

#[test]
fn repository_summary_is_printed_exactly() {
    let before = rows(7, "1.5 GB");
    assert_eq!(
        print_repo_summary(&before, None),
        vec![
            "\n================ Repository summary (current) ================".to_string(),
            format!("  {:28} {:8} {:>12} {:>12}", "repo", "type", "artifacts", "size"),
            format!("  {:28} {:8} {:>12} {:>12}", "repo-a", "hosted", 7, "1.5 GB"),
            "\n  sum(all hosted/cache repos)    = 1.5 GB".to_string(),
            "  sum(docker hosted/cache repos) = 0.1 GB".to_string(),
            "  store 'default' physical total      = 1.5 GB (7 blobs, dedup)".to_string(),
        ]
    );
    let after = rows(5, "1.0 GB");
    assert_eq!(
        print_repo_summary(&before, Some(&after)),
        vec![
            "\n================ Repository summary \u{2014} before \u{2192} after ================".to_string(),
            format!("  {:28} {:8} {:>21} {:>23}", "repo", "type", "artifacts", "size"),
            format!("  {:28} {:8} {:>9} \u{2192} {:>9} {:>10} \u{2192} {:>10}", "repo-a", "hosted", 7, 5, "1.5 GB", "1.0 GB"),
            "\n  sum(all hosted/cache repos)    = 1.5 GB \u{2192} 1.0 GB".to_string(),
            "  sum(docker hosted/cache repos) = 0.1 GB \u{2192} 0.1 GB".to_string(),
            "  store 'default' physical total      = 1.5 GB (7 blobs) \u{2192} 1.0 GB (5 blobs)".to_string(),
        ]
    );
    // What is gone afterwards is shown as it was.
    let gone = SummaryRows {
        repos: vec![],
        logical: "x".to_string(),
        docker: "y".to_string(),
        stores: vec![],
    };
    let lines = print_repo_summary(&before, Some(&gone));
    assert_eq!(
        lines[2],
        format!("  {:28} {:8} {:>9} \u{2192} {:>9} {:>10} \u{2192} {:>10}", "repo-a", "hosted", 7, 7, "1.5 GB", "1.5 GB")
    );
    assert_eq!(lines[5], "  store 'default' physical total      = 1.5 GB (7 blobs) \u{2192} 1.5 GB (7 blobs)");
}

#[test]
fn digests_and_dates_are_shortened() {
    assert_eq!(short("sha256:0123456789abcdef"), "sha256:0123456789ab");
    assert_eq!(short("sha256:01"), "sha256:01");
    assert_eq!(short("0123456789abcdef"), "0123456789ab");
    assert_eq!(short(""), "");
    assert!(can_shorten("sha256:0123456789ab"));
    // Twelve bytes end inside a letter.
    assert!(!can_shorten("sha256:0123456789a\u{e4}"));
    assert_eq!(date_only("2024-01-02T03:04:05Z"), "2024-01-02");
    assert_eq!(date_only("2024"), "2024");
    assert_eq!(date_only("2024-01-0\u{e4}"), "2024-01-0\u{e4}");
}

#[test]
fn evidence_decides_what_is_recommended() {
    let older = mismatch(Some("2024-01-01"), Some("2024-02-01"), MismatchPolicy::Delete);
    assert!(older.recommends_delete());
    let same = mismatch(Some("2024-02-01"), Some("2024-02-01"), MismatchPolicy::Delete);
    assert!(same.recommends_delete());
    let newer = mismatch(Some("2024-03-01"), Some("2024-02-01"), MismatchPolicy::Delete);
    assert!(!newer.recommends_delete());
    let unknown = mismatch(None, Some("2024-02-01"), MismatchPolicy::Delete);
    assert!(!unknown.recommends_delete());
    let parked = mismatch(Some("2024-01-01"), Some("2024-02-01"), MismatchPolicy::Leave);
    assert!(!parked.recommends_delete());
}

fn config(apply: Option<Vec<&str>>) -> ReorgConfig {
    ReorgConfig {
        rules_path: "rules.toml".to_string(),
        apply: apply.map(|v| v.into_iter().map(String::from).collect()),
        copy: false,
        insecure: false,
        verbose: false,
    }
}

#[test]
fn selection_chooses_groups() {
    assert!(config(None).dry_run());
    assert!(!config(None).wants(GROUP_MOVE));
    let some = config(Some(vec!["move", "mismatch"]));
    assert!(!some.dry_run());
    assert!(some.wants(GROUP_MOVE) && some.wants(GROUP_MISMATCH) && !some.wants(GROUP_REDUNDANT));
    let all = config(Some(vec!["all"]));
    assert!(all_groups().iter().all(|g| all.wants(g)));
    assert!(check_selection(&None).is_ok());
    assert!(check_selection(&Some(vec!["all".to_string(), "move".to_string()])).is_ok());
    assert_eq!(
        check_selection(&Some(vec!["move".to_string(), "x".to_string()])),
        Err("unknown --apply group 'x'; valid groups: move, redundant, superseded, mismatch, retired, non-released (or 'all')".to_string())
    );
}

#[test]
fn deletions_belong_to_the_group_of_their_reason() {
    assert_eq!(delete_group(&delete(tag("a", "b", "c"), "superseded (a newer copy is kept elsewhere)")), GROUP_SUPERSEDED);
    assert_eq!(delete_group(&delete(tag("a", "b", "c"), "identical")), GROUP_REDUNDANT);
}
