//! Compiling rules, resolving what is pending and executing a plan.
use artifact_depot::ordered::{KeySet, OrderedMap};
use artifact_depot::reorg::compile::{
    compile_groups, released_pattern, ClassesSource, CompiledGroup, RulesError,
};
use artifact_depot::reorg::config::ReorgConfig;
use artifact_depot::reorg::evidence::MismatchInfo;
use artifact_depot::reorg::execute::{
    applied_line, execution_script, report, run_result, StagingKind, StagingOp, Step, Tally,
};
use artifact_depot::reorg::plan::{
    build_group_plan, AbsentAction, DeleteItem, PlannedMove, ReconcileItem, TagRef,
};
use artifact_depot::reorg::preflight::{keep_distinct, preflight_repos};
use artifact_depot::reorg::resolve::{
    check_target, colliding_tags, dates_needed, scan_list, target_keys, CheckTarget, FoundCopy,
    ResolvedPlan, Scanned,
};
use artifact_depot::reorg::rules::{Action, Group, ImageClassesFile, MismatchPolicy, Rule, RulesFile};
use artifact_depot::reorg::settle::{ReconcileFacts, TriageFacts};
use artifact_depot::reorg::upstream::{
    all_prefixes, authority_use, check_format, classify_configured, compared_repos, dest_classes,
    first_served, head, known_cache, list_repo_tags, moved_images, polluted_tags, protected_repos,
    scope, tags_by_image, upstream_tags, AuthorityUse,
};

fn s(t: &str) -> String {
    t.to_string()
}

fn texts(ts: &[&str]) -> Vec<String> {
    ts.iter().map(|t| t.to_string()).collect()
}

fn rule(match_: &str, action: Action) -> Rule {
    Rule {
        match_: s(match_),
        images: vec![],
        action,
        dest: None,
        check: None,
        on_mismatch: None,
        aux_dest: None,
        insight_repo: None,
        classes_file: None,
        insight_images: vec![],
        aux_images: vec![],
    }
}

fn group(rules: Vec<Rule>) -> Group {
    Group {
        format: s("docker"),
        source_repos: texts(&["src"]),
        first_party_prefixes: texts(&["app/"]),
        purge_repos: texts(&["dead"]),
        retired_prefixes: texts(&["old/"]),
        rules,
    }
}

fn file(rules: Vec<Rule>) -> RulesFile {
    RulesFile {
        patterns: OrderedMap::new(),
        group: vec![group(rules)],
        usage_repo: None,
        check_authority: None,
    }
}

fn compile(rules: Vec<Rule>) -> Result<Vec<CompiledGroup>, RulesError> {
    compile_groups(&file(rules), &OrderedMap::new())
}

fn error(rules: Vec<Rule>) -> String {
    match compile(rules) {
        Ok(_) => panic!("compiles"),
        Err(e) => e.message(),
    }
}

fn one(rules: Vec<Rule>) -> CompiledGroup {
    match compile(rules) {
        Ok(mut gs) => gs.remove(0),
        Err(e) => panic!("{}", e.message()),
    }
}

fn tag(repo: &str, image: &str, tag: &str) -> TagRef {
    TagRef { source_repo: s(repo), image: s(image), tag: s(tag) }
}

#[test]
fn every_rule_error_has_its_message() {
    assert_eq!(error(vec![rule("m", Action::Move)]), "rule match='m' action=move requires 'dest'");
    assert_eq!(
        error(vec![rule("m", Action::DeleteIfAbsent)]),
        "rule match='m' action=delete_if_absent requires 'check'"
    );
    let mut r = rule("m", Action::Reconcile);
    r.check = Some(s("c"));
    assert_eq!(error(vec![r]), "rule match='m' action=reconcile requires 'check' and 'dest'");
    assert_eq!(
        error(vec![rule("m", Action::Classify)]),
        "rule match='m' action=classify requires 'aux_dest' and 'insight_repo'"
    );
    let classify = || {
        let mut r = rule("m", Action::Classify);
        r.aux_dest = Some(s("aux"));
        r.insight_repo = Some(s("insight"));
        r
    };
    assert_eq!(
        error(vec![classify()]),
        "rule match='m' action=classify has no images (set classes_file or inline lists)"
    );
    let mut both = classify();
    both.insight_images = texts(&["b", "a", "c"]);
    both.aux_images = texts(&["a", "b"]);
    assert_eq!(
        error(vec![both]),
        "classify rule match='m': image(s) on BOTH insight and aux lists: a, b"
    );
    assert_eq!(
        error(vec![rule("(", Action::Leave)]),
        "compile regex for match '(' (resolved: '(')"
    );
    let mut with_file = classify();
    with_file.classes_file = Some(s("classes.toml"));
    let mut files: OrderedMap<String, ClassesSource> = OrderedMap::new();
    files.insert(s("classes.toml"), ClassesSource::Unreadable(s("dir/classes.toml")));
    match compile_groups(&file(vec![with_file]), &files) {
        Err(e) => assert_eq!(e.message(), "read classes_file 'dir/classes.toml'"),
        Ok(_) => panic!("compiles"),
    }
    let mut with_file = classify();
    with_file.classes_file = Some(s("classes.toml"));
    files.insert(s("classes.toml"), ClassesSource::Malformed(s("dir/classes.toml")));
    match compile_groups(&file(vec![with_file]), &files) {
        Err(e) => assert_eq!(e.message(), "parse classes_file 'dir/classes.toml'"),
        Ok(_) => panic!("compiles"),
    }
}

#[test]
fn classes_file_and_inline_lists_are_merged() {
    let mut r = rule("x", Action::Classify);
    r.aux_dest = Some(s("aux"));
    r.insight_repo = Some(s("insight"));
    r.classes_file = Some(s("f"));
    r.insight_images = texts(&["app/a"]);
    let mut files: OrderedMap<String, ClassesSource> = OrderedMap::new();
    files.insert(
        s("f"),
        ClassesSource::Loaded(ImageClassesFile {
            insight_images: texts(&["app/b"]),
            aux_images: texts(&["app/c"]),
        }),
    );
    let gs = match compile_groups(&file(vec![r]), &files) {
        Ok(gs) => gs,
        Err(e) => panic!("{}", e.message()),
    };
    let c = &gs[0].rules[0];
    assert!(c.insight_images.contains(&s("app/a")) && c.insight_images.contains(&s("app/b")));
    assert_eq!((c.insight_images.len(), c.aux_images.len()), (2, 1));
    assert!(classify_configured(&gs));
    assert!(!classify_configured(&[one(vec![])]));
}

#[test]
fn patterns_match_whole_tags() {
    let mut r = rule("b|c", Action::Delete);
    r.images = texts(&["app/only"]);
    let g = one(vec![r]);
    assert!(g.rules[0].re.is_match("b") && g.rules[0].re.is_match("c"));
    assert!(!g.rules[0].re.is_match("bc") && !g.rules[0].re.is_match("xb"));
    let inv = vec![
        (s("app/only"), s("b")),
        (s("app/other"), s("b")),
        (s("lib/x"), s("b")),
    ];
    let plan = build_group_plan(&g, &inv, "src");
    assert_eq!(plan.deletes.len(), 1);
    assert_eq!(plan.leaves, vec![tag("src", "app/other", "b")]);
}

#[test]
fn tags_in_place_are_counted_by_class() {
    let mut r = rule(".*", Action::Move);
    r.dest = Some(s("src"));
    let g = one(vec![r]);
    let inv = vec![(s("app/a"), s("1")), (s("app/a"), s("2"))];
    let plan = build_group_plan(&g, &inv, "src");
    assert!(plan.moves.is_empty());
    assert_eq!(plan.already_placed, 2);
    assert_eq!(plan.already_placed_by_class.get(&s("catch-all")), Some(&2));
    let plan = build_group_plan(&g, &inv, "elsewhere");
    assert_eq!((plan.moves.len(), plan.already_placed), (2, 0));
    assert_eq!(plan.moves[0].class, "catch-all");
}

fn reconcile_rules() -> Vec<Rule> {
    let mut del = rule("d.*", Action::DeleteIfAbsent);
    del.check = Some(s("check"));
    let mut rec = rule("r.*", Action::Reconcile);
    rec.check = Some(s("check"));
    rec.dest = Some(s("aux"));
    let mut cls = rule("c.*", Action::Classify);
    cls.aux_dest = Some(s("aux"));
    cls.insight_repo = Some(s("insight"));
    cls.insight_images = texts(&["app/i"]);
    let mut mv = rule("m.*", Action::Move);
    mv.dest = Some(s("pre"));
    vec![del, rec, cls, mv]
}

fn found(repo: &str, digest: &str, via_authority: bool) -> Option<FoundCopy> {
    Some(FoundCopy { repo: s(repo), digest: s(digest), via_authority })
}

fn facts(found: Option<FoundCopy>, source: &str) -> ReconcileFacts {
    ReconcileFacts {
        found,
        source_digest: s(source),
        source_built: Some(s("2024-01-01")),
        check_built: Some(s("2024-02-02")),
    }
}

#[test]
fn a_scanned_repository_is_settled_without_losing_a_tag() {
    let g = one(reconcile_rules());
    assert_eq!(scan_list(&g), vec![(s("src"), false), (s("dead"), true)]);
    let inv = vec![
        (s("app/x"), s("d1")),
        (s("app/x"), s("d2")),
        (s("app/x"), s("r-absent")),
        (s("app/x"), s("r-same")),
        (s("app/x"), s("r-differs")),
        (s("app/i"), s("c-absent")),
        (s("app/i"), s("c-same")),
        (s("app/t"), s("c-new")),
        (s("app/x"), s("m")),
        (s("app/x"), s("unmatched")),
        (s("old/a"), s("1")),
        (s("lib/b"), s("1")),
    ];
    let mut p = ResolvedPlan::new();
    let mut scanned = Scanned::new();
    let pending = p.scan_repo(&mut scanned, &g, "dead", true, &inv);
    assert_eq!(pending.conditional_deletes.len(), 2);
    assert_eq!(pending.reconciles.len(), 5);
    assert_eq!(pending.triage.len(), 1);
    assert_eq!(p.prefix_deletes, vec![tag("dead", "old/a", "1")]);
    assert_eq!(p.purges, vec![tag("dead", "lib/b", "1")]);
    assert_eq!(scanned.holds("dead", "app/x", "m"), Some(true));
    assert_eq!(scanned.holds("dead", "app/x", "n"), Some(false));
    assert_eq!(scanned.holds("pre", "app/x", "m"), None);

    // Where each canonical copy is looked up.
    assert_eq!(check_target(&pending.reconciles[0]), CheckTarget::Repo(s("check")));
    assert_eq!(check_target(&pending.reconciles[3]), CheckTarget::Upstream);

    let all = vec![
        facts(None, ""),
        facts(found("check", "sha256:1", false), "sha256:1"),
        facts(found("check", "sha256:1", false), "sha256:2"),
        facts(None, ""),
        facts(found("release", "sha256:3", true), "sha256:3"),
    ];
    let evidence = vec![TriageFacts { upstream: Some(s("sha256:9")), source_digest: s("sha256:9") }];
    p.settle_repo(&g, pending, &[true, false], &all, &evidence);

    assert_eq!(p.kept, vec![tag("dead", "app/x", "d1")]);
    assert_eq!(
        p.deletes,
        vec![
            DeleteItem { tag: tag("dead", "app/x", "d2"), reason: s("absent from check (delete-if-absent)") },
            DeleteItem {
                tag: tag("dead", "app/x", "r-same"),
                reason: s("identical digest already in check (redundant duplicate)")
            },
            DeleteItem {
                tag: tag("dead", "app/i", "c-same"),
                reason: s("identical digest already upstream in release (redundant duplicate)")
            },
        ]
    );
    assert_eq!(p.moves.len(), 2);
    assert_eq!((p.moves[1].tag.as_str(), p.moves[1].dest.as_str()), ("r-absent", "aux"));
    assert_eq!(p.moves[1].class, "r.*");
    assert_eq!(p.mismatched.len(), 1);
    assert_eq!(p.mismatched[0].check_built.as_deref(), Some("2024-02-02"));
    assert_eq!(p.insight_absent, vec![tag("dead", "app/i", "c-absent")]);
    assert_eq!(p.created_date(&p.insight_absent[0]), "2024-01-01");
    assert_eq!(p.created_date(&tag("dead", "app/x", "m")), "?");
    assert!(p.needs_classification[0].upstream_same_digest);
    assert_eq!(p.leaves, vec![tag("dead", "app/x", "unmatched")]);
    // Ten first-party tags, each in one bucket.
    let total = p.moves.len() + p.deletes.len() + p.kept.len() + p.leaves.len()
        + p.mismatched.len() + p.insight_absent.len() + p.needs_classification.len();
    assert_eq!(total, 10);
}

fn reconcile(repo: &str, absent: AbsentAction) -> ReconcileItem {
    ReconcileItem {
        tag: tag(repo, "app/x", "1"),
        check_repo: s("check"),
        absent,
        on_mismatch: MismatchPolicy::Delete,
    }
}

#[test]
fn the_canonical_copy_is_never_dropped() {
    let g = one(vec![]);
    let mut p = ResolvedPlan::new();
    // The source is the check repo itself.
    p.settle_reconcile(
        &g,
        reconcile("check", AbsentAction::MoveTo(s("aux"))),
        found("check", "d", false),
        s("d"),
        None,
        None,
    );
    assert_eq!(p.kept.len(), 1);
    // An empty digest proves nothing.
    p.settle_reconcile(
        &g,
        reconcile("src", AbsentAction::MoveTo(s("aux"))),
        found("check", "", false),
        s(""),
        None,
        None,
    );
    assert_eq!(p.mismatched.len(), 1);
    // Already where it would go.
    p.settle_reconcile(&g, reconcile("aux", AbsentAction::MoveTo(s("aux"))), None, s(""), None, None);
    assert_eq!(p.already_placed, 1);
    assert!(p.deletes.is_empty() && p.moves.is_empty());
}

#[test]
fn only_the_dates_that_count_are_asked_for() {
    let flag = reconcile("src", AbsentAction::Flag);
    let mv = reconcile("src", AbsentAction::MoveTo(s("aux")));
    let own = reconcile("check", AbsentAction::MoveTo(s("aux")));
    let d = dates_needed(&flag, &None, "");
    assert!(d.source && !d.check);
    let d = dates_needed(&mv, &None, "");
    assert!(!d.source && !d.check);
    let d = dates_needed(&mv, &found("check", "d", false), "d");
    assert!(d.source && !d.check);
    let d = dates_needed(&own, &found("check", "d", false), "d");
    assert!(!d.source && !d.check);
    let d = dates_needed(&own, &found("check", "d", false), "e");
    assert!(d.source && d.check);
}

fn mv(repo: &str, t: &str) -> PlannedMove {
    PlannedMove { source_repo: s(repo), image: s("app/x"), tag: s(t), dest: s("pre"), class: s("c") }
}

#[test]
fn collisions_are_found_and_settled() {
    let mut p = ResolvedPlan::new();
    p.moves.push(mv("a", "taken"));
    p.moves.push(mv("a", "two"));
    p.moves.push(mv("b", "two"));
    p.moves.push(mv("a", "free"));
    let keys = target_keys(&p.moves);
    assert_eq!(keys.len(), 3);
    let mut scanned = Scanned::new();
    assert_eq!(scanned.unscanned_targets(&keys).len(), 3);
    let mut asked: KeySet<(String, String, String)> = KeySet::new();
    asked.insert((s("pre"), s("app/x"), s("free")));
    assert_eq!(scanned.held_targets(&keys, &asked).len(), 1);
    // A scan counts for more than what was asked.
    scanned.record("pre", &[(s("app/x"), s("taken"))]);
    assert!(scanned.unscanned_targets(&keys).is_empty());
    let present = scanned.held_targets(&keys, &asked);
    assert_eq!(present.len(), 1);
    assert!(present.contains(&(s("pre"), s("app/x"), s("taken"))));
    let colliding = colliding_tags(&p.moves, &present);
    assert_eq!(
        colliding,
        vec![tag("a", "app/x", "taken"), tag("a", "app/x", "two"), tag("b", "app/x", "two")]
    );

    let mut ts: OrderedMap<(String, String, String), Option<String>> = OrderedMap::new();
    ts.insert((s("a"), s("app/x"), s("taken")), Some(s("2024-05-01T00:00:00Z")));
    ts.insert((s("pre"), s("app/x"), s("taken")), Some(s("2024-04-01T00:00:00Z")));
    ts.insert((s("a"), s("app/x"), s("two")), Some(s("2024-01-01T00:00:00Z")));
    ts.insert((s("b"), s("app/x"), s("two")), None);
    p.settle_collisions(&present, &ts);
    let kept: Vec<(&str, &str)> =
        p.moves.iter().map(|m| (m.source_repo.as_str(), m.tag.as_str())).collect();
    assert_eq!(kept.len(), 2);
    assert!(kept.contains(&("a", "free")) && kept.contains(&("a", "two")));
    // The newer source copy is kept for review, the undated one is deleted.
    assert_eq!(p.superseded.len(), 1);
    assert_eq!(p.superseded[0].tag, tag("a", "app/x", "taken"));
    assert_eq!(
        p.deletes,
        vec![DeleteItem {
            tag: tag("b", "app/x", "two"),
            reason: s("superseded (a newer copy is kept elsewhere)")
        }]
    );
    assert_eq!(p.created_date(&tag("b", "app/x", "two")), "?");
    // What is settled stays as it is.
    let routes = |p: &ResolvedPlan| -> Vec<(String, String)> {
        p.moves.iter().map(|m| (m.source_repo.clone(), m.tag.clone())).collect()
    };
    let before = routes(&p);
    p.settle_collisions(&present, &ts);
    assert_eq!(routes(&p), before);
    assert_eq!((p.deletes.len(), p.superseded.len()), (1, 1));
}

fn config(apply: &[&str], copy: bool) -> ReorgConfig {
    ReorgConfig {
        rules_path: s("r"),
        apply: Some(texts(apply)),
        copy,
        insecure: false,
        verbose: false,
    }
}

fn script_of(steps: &[Step]) -> Vec<String> {
    steps
        .iter()
        .map(|step| match step {
            Step::Say(t) => t.clone(),
            Step::Warn(t) => format!("! {t}"),
            Step::Do(op) => format!(
                "{} {}/{}:{} {}",
                match op.kind {
                    StagingKind::Copy => "copy",
                    StagingKind::Move => "move",
                    StagingKind::Delete => "delete",
                },
                op.tag.source_repo,
                op.tag.image,
                op.tag.tag,
                op.dest.clone().unwrap_or_default()
            ),
        })
        .collect()
}

fn executable_plan() -> ResolvedPlan {
    let mut p = ResolvedPlan::new();
    p.moves.push(mv("a", "1"));
    p.deletes.push(DeleteItem { tag: tag("a", "app/x", "2"), reason: s("identical") });
    p.deletes.push(DeleteItem { tag: tag("check", "app/x", "3"), reason: s("identical") });
    p.deletes.push(DeleteItem {
        tag: tag("a", "app/x", "4"),
        reason: s("superseded (a newer copy is kept elsewhere)"),
    });
    for (built, t) in [("2024-01-01", "5"), ("2024-09-09", "6")] {
        p.mismatched.push(MismatchInfo {
            tag: tag("a", "app/x", t),
            check_repo: s("check"),
            source_digest: s("s"),
            check_digest: s("c"),
            source_built: Some(s(built)),
            check_built: Some(s("2024-02-02")),
            on_mismatch: MismatchPolicy::Delete,
        });
    }
    p.prefix_deletes.push(tag("a", "old/x", "7"));
    p.non_released.push(tag("insight", "app/x", "dev"));
    p
}

#[test]
fn all_groups_are_executed_in_order() {
    let groups = vec![one(reconcile_rules())];
    let steps = execution_script(&config(&["all"], false), &executable_plan(), &groups, &None);
    assert_eq!(
        script_of(&steps),
        vec![
            "\nApplying groups: all \u{2014} no prompts...",
            "\n[move] 1 tag(s)...",
            "move a/app/x:1 pre",
            "\n[delete] 5 tag(s) from source...",
            "delete a/app/x:2 ",
            "!   delete REFUSED (cache/insight repo never deleted): check/app/x:3",
            "delete a/app/x:4 ",
            "delete a/app/x:5 ",
            "delete a/old/x:7 ",
            "\n[non-released] deleting 1 tag(s) from the local insight cache (absent upstream)...",
            "delete insight/app/x:dev ",
        ]
    );
}

#[test]
fn only_selected_groups_are_executed() {
    let groups = vec![one(reconcile_rules())];
    let p = executable_plan();
    assert_eq!(
        script_of(&execution_script(&config(&["superseded"], false), &p, &groups, &None)),
        vec![
            "\nApplying groups: superseded \u{2014} no prompts...",
            "\n[delete] 1 tag(s) from source...",
            "delete a/app/x:4 ",
        ]
    );
    // A copy deletes nothing.
    assert_eq!(
        script_of(&execution_script(&config(&["all"], true), &p, &groups, &None)),
        vec![
            "\nApplying groups: all \u{2014} no prompts...",
            "\n[copy] 1 tag(s)...",
            "copy a/app/x:1 pre",
            "\n--copy is non-destructive: skipping all delete groups.",
        ]
    );
    // The cache of the authority is protected too.
    let steps = execution_script(&config(&["superseded"], false), &p, &groups, &Some(s("a")));
    assert!(script_of(&steps)[2].contains("REFUSED"));
    let mut noted = executable_plan();
    noted.non_released_note = Some(s("n"));
    let steps = execution_script(&config(&["non-released"], false), &noted, &groups, &None);
    assert_eq!(script_of(&steps)[1], "!   [non-released] cannot run \u{2014} n");
}

#[test]
fn outcomes_are_tallied() {
    let mut tally = Tally { ok: 0, failed: 0 };
    let op = StagingOp { kind: StagingKind::Move, tag: tag("a", "app/x", "1"), dest: Some(s("pre")) };
    assert_eq!(report(&mut tally, &op, None), "  move ok: a/app/x:1");
    assert_eq!(run_result(&tally), Ok(()));
    let op = StagingOp { kind: StagingKind::Delete, tag: tag("a", "app/x", "2"), dest: None };
    assert_eq!(report(&mut tally, &op, Some("boom")), "  delete FAILED: a/app/x:2: boom");
    assert_eq!(applied_line(&tally), "\nApplied: 1 succeeded, 1 failed.");
    assert_eq!(run_result(&tally), Err(s("1 staging operation(s) failed")));
}

#[test]
fn the_authority_is_needed_by_classify_rules() {
    assert_eq!(authority_use(false, None, false), Ok(AuthorityUse::Unconfigured));
    assert_eq!(authority_use(true, None, true), Ok(AuthorityUse::Ready));
    assert_eq!(authority_use(true, Some(s("e")), false), Ok(AuthorityUse::Failed(s("e"))));
    assert!(authority_use(false, None, true).unwrap_err().contains("require a [check_authority]"));
    assert!(authority_use(true, Some(s("e")), true).unwrap_err().contains("must be reachable"));
    let mut g = one(vec![]);
    assert!(check_format(&g).is_ok());
    g.format = s("helm");
    assert_eq!(
        check_format(&g),
        Err(s("format 'helm' is not supported yet (only 'docker'); add server-side movers before using it"))
    );
}

#[test]
fn repositories_and_tags_are_collected() {
    let g = one(reconcile_rules());
    let groups = vec![g];
    let listed = |set: &KeySet<String>| -> Vec<String> {
        (0..set.len()).map(|i| set.at(i).clone()).collect()
    };
    assert_eq!(listed(&compared_repos(&groups, &None)), texts(&["check", "insight"]));
    // The authority's cache is compared too, whether or not a rule checks it.
    assert_eq!(
        listed(&compared_repos(&groups, &Some(s("cache")))),
        texts(&["cache", "check", "insight"])
    );
    assert_eq!(listed(&compared_repos(&[], &Some(s("cache")))), texts(&["cache"]));
    assert_eq!(listed(&compared_repos(&groups, &Some(s("check")))), texts(&["check", "insight"]));
    assert_eq!(
        listed(&protected_repos(&groups, &Some(s("cache")))),
        texts(&["cache", "check", "insight"])
    );
    assert_eq!(listed(&all_prefixes(&groups)), texts(&["app/"]));
    assert_eq!(
        scope(&groups, &[mv("src", "1")], &Some(s("cache"))),
        texts(&["src", "pre", "dead", "check", "insight", "aux", "cache"])
    );
    assert_eq!(listed(&moved_images(&[mv("a", "1"), mv("b", "2")])), texts(&["app/x"]));
    let classes = dest_classes(&file(reconcile_rules()));
    assert_eq!(classes.get(&s("aux")), Some(&texts(&["r.*", "c.*"])));
    assert_eq!(classes.get(&s("pre")), Some(&texts(&["m.*"])));
    let by_image = tags_by_image(&[tag("r", "b", "2"), tag("r", "a", "1"), tag("r", "b", "1")]);
    assert_eq!(by_image.get(&s("b")), Some(&texts(&["1", "2"])));
    assert_eq!(keep_distinct(&texts(&["b", "a", "b"])), texts(&["b", "a"]));

    let listing = list_repo_tags(&[(s("app/x"), texts(&["1", "dev"])), (s("lib/y"), texts(&["2"]))]);
    assert_eq!(
        listing,
        vec![(s("app/x"), s("1")), (s("app/x"), s("dev")), (s("lib/y"), s("2"))]
    );
    let upstream = upstream_tags(&listing[..1]);
    assert_eq!(listed(&upstream), texts(&["app/x:1"]));
    assert_eq!(
        polluted_tags("cache", &listing, &texts(&["app/"]), &upstream),
        vec![tag("cache", "app/x", "dev")]
    );
    assert_eq!(head("r", 200, s("d"), true).map(|f| (f.repo, f.digest)), Some((s("r"), s("d"))));
    assert!(head("r", 404, s("d"), true).is_none());
}

#[test]
fn a_cache_that_is_not_there_is_not_compared() {
    let inventory = vec![(s("cache"), s("cache"), s("docker"))];
    assert_eq!(known_cache(&inventory, &Some(s("cache"))), Some(s("cache")));
    assert_eq!(known_cache(&inventory, &Some(s("other"))), None);
    assert_eq!(known_cache(&inventory, &None), None);
}

#[test]
fn the_first_upstream_repository_that_serves_a_tag_counts() {
    let answer = |repo: &str, status: u16| (s(repo), status, format!("sha256:{repo}"));
    assert!(first_served(&[]).is_none());
    assert!(first_served(&[answer("a", 404), answer("b", 401)]).is_none());
    let f = first_served(&[answer("a", 404), answer("b", 200), answer("c", 200)]).unwrap();
    assert_eq!((f.repo, f.digest, f.via_authority), (s("b"), s("sha256:b"), true));
}

#[test]
fn the_released_pattern_is_the_one_of_that_name() {
    let mut patterns: OrderedMap<String, String> = OrderedMap::new();
    patterns.insert(s("beta"), s(r"\d+-beta"));
    // Without the name there is no pattern, not even one that matches the word.
    assert!(released_pattern(&patterns).is_none());
    patterns.insert(s("released"), s(r"\d+\.\d+"));
    let re = released_pattern(&patterns).unwrap();
    assert!(re.is_match("1.2") && !re.is_match("1.2-beta") && !re.is_match("released"));
    // One that is no expression is none.
    patterns.insert(s("released"), s("("));
    assert!(released_pattern(&patterns).is_none());
}

#[test]
fn the_cache_is_compared_with_the_upstream() {
    let g = one(vec![{
        let mut r = rule(r"\d+", Action::Leave);
        r.images = vec![];
        r
    }]);
    let released = &g.rules[0].re;
    let listing = vec![(s("app/x"), s("1")), (s("app/x"), s("2")), (s("app/x"), s("dev"))];
    let upstream = upstream_tags(&listing[..1]);
    let mut p = ResolvedPlan::new();
    p.compare_cache("cache", &listing, &texts(&["app/"]), &upstream, released);
    assert_eq!(p.copy_upstream, vec![tag("cache", "app/x", "2")]);
    assert_eq!(p.non_released, vec![tag("cache", "app/x", "dev")]);
    p.note_comparison(true, true);
    assert_eq!(p.non_released_note, None);
    p.note_comparison(true, false);
    assert_eq!(p.non_released_note.as_deref(), Some("no `released` pattern in rules"));
    let mut q = ResolvedPlan::new();
    q.note_comparison(false, true);
    assert_eq!(q.non_released_note.as_deref(), Some("no [check_authority] upstream configured"));
    q.non_released_note = Some(s("earlier"));
    q.note_comparison(false, false);
    assert_eq!(q.non_released_note.as_deref(), Some("earlier"));
}

#[test]
fn preflight_names_every_problem() {
    let g = one(reconcile_rules());
    let repo = |n: &str, t: &str| (s(n), s(t), s("docker"));
    let ok = vec![
        repo("src", "hosted"),
        repo("dead", "cache"),
        repo("check", "cache"),
        repo("insight", "cache"),
        repo("aux", "hosted"),
        repo("pre", "hosted"),
    ];
    let groups = vec![g];
    assert_eq!(preflight_repos(&ok, &groups, None), None);
    let mut wrong = ok;
    wrong[1].2 = s("helm");
    wrong.remove(0);
    let message = preflight_repos(&wrong, &groups, Some("use")).unwrap();
    assert!(message.contains("'src' does not exist"), "{message}");
    assert!(message.contains("'dead' is format 'helm', expected 'docker'"), "{message}");
    assert!(message.contains("usage_repo 'use' does not exist"), "{message}");
}
