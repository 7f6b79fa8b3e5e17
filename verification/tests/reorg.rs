//! Planning the reorganisation of docker repositories.
use artifact_depot::ordered::{KeySet, OrderedMap};
use artifact_depot::reorg::collisions::resolve_move_collisions;
use artifact_depot::reorg::compile::{compile_groups, compile_match, ClassesSource, CompiledGroup};
use artifact_depot::reorg::evidence::{MismatchInfo, TriageItem};
use artifact_depot::reorg::plan::{
    build_group_plan, decide, AbsentAction, AbsentDest, Decision, PlannedMove, TagRef,
};
use artifact_depot::reorg::preflight::validate_repo_refs;
use artifact_depot::reorg::report::move_list_hint;
use artifact_depot::reorg::rules::{
    Action, CheckAuthority, Group, MismatchPolicy, Rule, RulesFile,
};
use artifact_depot::reorg::upstream::cache_pollution;

fn no_files() -> OrderedMap<String, ClassesSource> {
    OrderedMap::new()
}

fn text(t: &toml::Table, key: &str) -> Option<String> {
    t.get(key).map(|v| v.as_str().unwrap().to_string())
}

fn texts(t: &toml::Table, key: &str) -> Vec<String> {
    match t.get(key) {
        Some(v) => {
            v.as_array().unwrap().iter().map(|s| s.as_str().unwrap().to_string()).collect()
        }
        None => Vec::new(),
    }
}

fn tables<'a>(t: &'a toml::Table, key: &str) -> Vec<&'a toml::Table> {
    match t.get(key) {
        Some(v) => v.as_array().unwrap().iter().map(|x| x.as_table().unwrap()).collect(),
        None => Vec::new(),
    }
}

fn rule_from(t: &toml::Table) -> Rule {
    Rule {
        match_: text(t, "match").unwrap(),
        images: texts(t, "images"),
        action: match t["action"].as_str().unwrap() {
            "move" => Action::Move,
            "delete_if_absent" => Action::DeleteIfAbsent,
            "reconcile" => Action::Reconcile,
            "classify" => Action::Classify,
            "delete" => Action::Delete,
            "leave" => Action::Leave,
            other => panic!("unknown action {other}"),
        },
        dest: text(t, "dest"),
        check: text(t, "check"),
        on_mismatch: text(t, "on_mismatch").map(|p| match p.as_str() {
            "delete" => MismatchPolicy::Delete,
            "leave" => MismatchPolicy::Leave,
            other => panic!("unknown policy {other}"),
        }),
        aux_dest: text(t, "aux_dest"),
        insight_repo: text(t, "insight_repo"),
        classes_file: text(t, "classes_file"),
        insight_images: texts(t, "insight_images"),
        aux_images: texts(t, "aux_images"),
    }
}

fn rules_from_toml(source: &str) -> RulesFile {
    let doc: toml::Table = toml::from_str(source).unwrap();
    let mut patterns: OrderedMap<String, String> = OrderedMap::new();
    if let Some(t) = doc.get("patterns") {
        for (name, p) in t.as_table().unwrap() {
            patterns.insert(name.clone(), p.as_str().unwrap().to_string());
        }
    }
    RulesFile {
        patterns,
        group: tables(&doc, "group")
            .into_iter()
            .map(|g| Group {
                format: text(g, "format").unwrap(),
                source_repos: texts(g, "source_repos"),
                first_party_prefixes: texts(g, "first_party_prefixes"),
                purge_repos: texts(g, "purge_repos"),
                retired_prefixes: texts(g, "retired_prefixes"),
                rules: tables(g, "rule").into_iter().map(rule_from).collect(),
            })
            .collect(),
        usage_repo: text(&doc, "usage_repo"),
        check_authority: doc.get("check_authority").map(|v| {
            let t = v.as_table().unwrap();
            CheckAuthority {
                cache_repo: text(t, "cache_repo").unwrap(),
                upstream_url: text(t, "upstream_url").unwrap(),
                upstream_repos: texts(t, "upstream_repos"),
            }
        }),
    }
}

const SAMPLE: &str = r#"
    [patterns]
    released   = '\d+\.\d+\.\d+(-(linux|windows|darwin)_[a-z0-9_]+)?'
    prerelease = '\d+\.\d+\.\d+-(dev|rc)\.\d+(-(linux|windows|darwin)_[a-z0-9_]+)?'
    develop    = 'develop(-(linux|windows|darwin)_[a-z0-9_]+)?'
    ci         = 'ci-.+-\d+'
    developer  = '[a-z][a-z0-9]*-\d+'

    [[group]]
    format = "docker"
    source_repos = ["docker-internal", "docker-external"]
    first_party_prefixes = ["myriad/", "qkp/", "orchestrator/"]
    purge_repos = ["docker-upstream"]

      [[group.rule]]
      match = "prerelease"
      action = "move"
      dest = "docker-prerelease"

      [[group.rule]]
      match = "released"
      action = "reconcile"
      check = "docker-insight"
      dest = "docker-release-aux"

      [[group.rule]]
      match = "develop"
      action = "move"
      dest = "docker-prerelease"

      [[group.rule]]
      match = "ci"
      action = "move"
      dest = "docker-development-local"

      [[group.rule]]
      match = "developer"
      action = "move"
      dest = "docker-development-local"

      [[group.rule]]
      match = '.*'
      action = "move"
      dest = "docker-development-local"
"#;

fn sample_group() -> CompiledGroup {
    let rules = rules_from_toml(SAMPLE);
    compile_groups(&rules, &no_files())
        .unwrap()
        .pop()
        .unwrap()
}

#[test]
fn patterns_parse_and_compile() {
    let rules = rules_from_toml(SAMPLE);
    assert_eq!(rules.patterns.len(), 5);
    let groups = compile_groups(&rules, &no_files()).unwrap();
    assert_eq!(groups.len(), 1);
    assert_eq!(groups[0].rules.len(), 6);
}

#[test]
fn released_regex_flags_non_xyz_tags() {
    // The `non-released` group uses the compiled `released` pattern to spot
    // non x.y.z tags an insight/release cache shouldn't serve.
    let rules = rules_from_toml(SAMPLE);
    let re = compile_match(&rules.patterns, "released").expect("released compiles");
    assert!(re.is_match("1.5.0"), "plain x.y.z is released");
    assert!(
        re.is_match("1.5.0-linux_amd64"),
        "platform-suffixed is released"
    );
    assert!(
        !re.is_match("1.4.0-dev.117"),
        "dev prerelease is NOT released"
    );
    assert!(
        !re.is_match("1.6.0-dev.242"),
        "dev prerelease is NOT released"
    );
    assert!(!re.is_match("develop"), "develop is NOT released");
    assert!(
        !re.is_match("1.0.0-alain-20260520T151747Z"),
        "one-off tag is NOT released"
    );
}

#[test]
fn arch_suffixed_tags_route_like_their_base() {
    let g = sample_group();
    // A platform component tag routes exactly like its base tag, so a
    // multi-arch family stays together instead of falling to the catch-all.
    assert_eq!(
        decide(&g, "myriad/dev", "1.4.0-dev.80-linux_amd64"),
        Decision::Move("docker-prerelease")
    );
    assert_eq!(
        decide(&g, "myriad/dev", "1.4.0-dev.80-linux_arm64_v8"),
        Decision::Move("docker-prerelease")
    );
    assert_eq!(
        decide(&g, "qkp/leaf", "develop-linux_amd64"),
        Decision::Move("docker-prerelease")
    );
    // released x.y.z component → same reconcile as the bare release.
    assert_eq!(
        decide(&g, "myriad/api_server", "1.5.0-linux_amd64"),
        Decision::Reconcile {
            check: "docker-insight",
            absent: AbsentDest::MoveTo("docker-release-aux"),
            on_mismatch: MismatchPolicy::Delete,
        }
    );
    // The bare index tag still routes as before.
    assert_eq!(
        decide(&g, "myriad/dev", "1.4.0-dev.80"),
        Decision::Move("docker-prerelease")
    );
    // A non-platform suffix is NOT swallowed (still catch-all).
    assert_eq!(
        decide(&g, "myriad/dev", "1.4.0-dev.80-canal13"),
        Decision::Move("docker-development-local")
    );
}

#[test]
fn decide_routes_every_shape() {
    let g = sample_group();
    assert_eq!(
        decide(&g, "myriad/api_server", "1.2.3-dev.7"),
        Decision::Move("docker-prerelease")
    );
    assert_eq!(
        decide(&g, "myriad/api_server", "1.5.0-rc.2"),
        Decision::Move("docker-prerelease")
    );
    assert_eq!(
        decide(&g, "qkp/leaf", "develop"),
        Decision::Move("docker-prerelease")
    );
    assert_eq!(
        decide(&g, "qkp/leaf", "ci-build-12"),
        Decision::Move("docker-development-local")
    );
    assert_eq!(
        decide(&g, "qkp/leaf", "slord-79"),
        Decision::Move("docker-development-local")
    );
    // any released x.y.z → reconcile against insight (image-independent;
    // the supplementary/primary split happens at digest-check time).
    assert_eq!(
        decide(&g, "myriad/test_exec_web", "1.2.3"),
        Decision::Reconcile {
            check: "docker-insight",
            absent: AbsentDest::MoveTo("docker-release-aux"),
            on_mismatch: MismatchPolicy::Delete,
        }
    );
    assert_eq!(
        decide(&g, "myriad/api_server", "1.2.3"),
        Decision::Reconcile {
            check: "docker-insight",
            absent: AbsentDest::MoveTo("docker-release-aux"),
            on_mismatch: MismatchPolicy::Delete,
        }
    );
    // unmatched (e.g. the real 1.4.2-canal13 tag, or latest) → catch-all
    assert_eq!(
        decide(&g, "myriad/api_server", "1.4.2-canal13"),
        Decision::Move("docker-development-local")
    );
    assert_eq!(
        decide(&g, "myriad/api_server", "latest"),
        Decision::Move("docker-development-local")
    );
}

#[test]
fn catch_all_routes_unmatched_to_development() {
    let g = sample_group();
    // A specific rule still wins over the catch-all (ordering).
    assert_eq!(
        decide(&g, "myriad/x", "1.2.3-dev.1"),
        Decision::Move("docker-prerelease")
    );
    // Anything no specific rule matched falls to the catch-all.
    assert_eq!(
        decide(&g, "myriad/x", "some-branch-tag"),
        Decision::Move("docker-development-local")
    );
    assert_eq!(
        decide(&g, "myriad/x", "0-9-0"),
        Decision::Move("docker-development-local")
    );
}

#[test]
fn build_group_plan_buckets_and_skips_third_party() {
    let g = sample_group();
    let inv = vec![
        ("myriad/api_server".to_string(), "1.2.3".to_string()), // reconcile
        ("myriad/api_server".to_string(), "1.2.3-dev.4".to_string()), // move → prerelease
        ("myriad/api_server".to_string(), "1.4.2-canal13".to_string()), // catch-all → development-local
        ("library/postgres".to_string(), "16.2".to_string()),           // third-party: skipped
    ];
    let plan = build_group_plan(&g, &inv, "docker-internal");
    // 1.2.3-dev.4 → prerelease, 1.4.2-canal13 → development
    assert_eq!(plan.moves.len(), 2);
    assert_eq!(plan.reconciles.len(), 1);
    assert_eq!(plan.reconciles[0].check_repo, "docker-insight");
    assert_eq!(
        plan.reconciles[0].absent,
        AbsentAction::MoveTo("docker-release-aux".to_string())
    );
    // Catch-all means nothing is left unclassified.
    assert!(plan.leaves.is_empty());
    // Third-party image contributed nothing.
    assert!(!plan.moves.iter().any(|m| m.image == "library/postgres"));
    assert!(!plan
        .reconciles
        .iter()
        .any(|r| r.tag.image == "library/postgres"));
}

#[test]
fn inline_regex_in_match_works() {
    let toml = r#"
        [[group]]
        format = "docker"
        source_repos = ["r"]
        first_party_prefixes = ["app/"]
          [[group.rule]]
          match = '^v\d+$'
          action = "move"
          dest = "tagged"
    "#;
    let rules = rules_from_toml(toml);
    let g = compile_groups(&rules, &no_files())
        .unwrap()
        .pop()
        .unwrap();
    assert_eq!(decide(&g, "app/x", "v3"), Decision::Move("tagged"));
    assert_eq!(decide(&g, "app/x", "v3.1"), Decision::Leave);
}

#[test]
fn preflight_flags_nonhosted_dest_and_missing_repos() {
    let g = sample_group();
    let groups = std::slice::from_ref(&g);
    // docker-development-local is the catch-all dest here; model it as a
    // *proxy* in the inventory to prove the hosted-dest check fires.
    let inv = |dev_local_type: &str| {
        vec![
            ("docker-internal", "hosted", "docker"),
            ("docker-external", "hosted", "docker"),
            ("docker-prerelease", "hosted", "docker"),
            ("docker-release-aux", "hosted", "docker"),
            ("docker-insight", "cache", "docker"),
            ("docker-development-local", dev_local_type, "docker"),
            ("docker-upstream", "cache", "docker"),
            ("docker", "proxy", "docker"),
        ]
        .into_iter()
        .map(|(n, t, f)| (n.to_string(), t.to_string(), f.to_string()))
        .collect::<Vec<_>>()
    };

    // All hosted dests present → clean.
    assert!(validate_repo_refs(&inv("hosted"), groups, Some("docker")).is_empty());

    // Catch-all dest is a proxy → flagged as a non-hosted destination.
    let errs = validate_repo_refs(&inv("proxy"), groups, Some("docker"));
    assert_eq!(errs.len(), 1, "{errs:?}");
    assert!(errs[0].contains("docker-development-local"));
    assert!(errs[0].contains("must be 'hosted'"));

    // A missing repo (drop docker-prerelease) is reported too.
    let mut missing = inv("hosted");
    missing.retain(|(n, _, _)| n != "docker-prerelease");
    let errs = validate_repo_refs(&missing, groups, Some("docker"));
    assert!(errs
        .iter()
        .any(|e| e.contains("docker-prerelease") && e.contains("does not exist")));

    // Missing usage repo is reported.
    let errs = validate_repo_refs(&inv("hosted"), groups, Some("nope"));
    assert!(errs.iter().any(|e| e.contains("usage_repo 'nope'")));
}

#[test]
fn retired_prefixes_parse_and_classify() {
    let toml = r#"
        [[group]]
        format = "docker"
        first_party_prefixes = ["acme-orchestrator/"]
        retired_prefixes = ["orchestrator/", "acme_orchestrator/"]
    "#;
    let g = compile_groups(&rules_from_toml(toml), &no_files())
        .unwrap()
        .pop()
        .unwrap();
    // Retired namespaces match; the current (dash) one does not.
    assert!(g.is_retired("orchestrator/orchestrator"));
    assert!(g.is_retired("acme_orchestrator/orchestrator"));
    assert!(!g.is_retired("acme-orchestrator/orchestrator"));
    // The current name is first-party, not retired (disjoint).
    assert!(g.is_first_party("acme-orchestrator/orchestrator"));
    assert!(!g.is_first_party("orchestrator/orchestrator"));
}

#[test]
fn check_authority_parses() {
    let toml = r#"
        [[group]]
        format = "docker"
        [check_authority]
        cache_repo = "docker-insight"
        upstream_url = "https://repository.example.com:8081"
        upstream_repos = ["docker-external", "docker-release"]
    "#;
    let r = rules_from_toml(toml);
    let a = r.check_authority.expect("check_authority present");
    assert_eq!(a.cache_repo, "docker-insight");
    assert_eq!(a.upstream_url, "https://repository.example.com:8081");
    assert_eq!(a.upstream_repos, vec!["docker-external", "docker-release"]);
}

#[test]
fn cache_pollution_flags_only_tags_absent_upstream() {
    let local = vec![
        ("myriad/master".to_string(), "1.5.2".to_string()),
        ("myriad/master".to_string(), "1.6.0-dev.168".to_string()),
        ("myriad/master".to_string(), "1.4.0-dev.117".to_string()),
        (
            "acme-orchestrator/orchestrator".to_string(),
            "develop".to_string(),
        ),
    ];
    // Upstream has the real release plus a legit -rc; the dev/develop tags don't exist there.
    let mut upstream: KeySet<String> = KeySet::new();
    upstream.insert("myriad/master:1.5.2".to_string());
    upstream.insert("myriad/master:1.5.0-rc.1".to_string());
    let p = cache_pollution(&local, &upstream);
    // 1.5.2 is upstream → not flagged; the two dev tags are (sorted).
    assert_eq!(
        p.get(&"myriad/master".to_string()).unwrap(),
        &vec!["1.4.0-dev.117".to_string(), "1.6.0-dev.168".to_string()]
    );
    assert_eq!(
        p.get(&"acme-orchestrator/orchestrator".to_string()).unwrap(),
        &vec!["develop".to_string()]
    );
    // A clean cache (all tags upstream) yields no entries.
    let clean = vec![("myriad/master".to_string(), "1.5.2".to_string())];
    assert!(cache_pollution(&clean, &upstream).is_empty());
}

#[test]
fn reorg_move_without_dest_is_rejected() {
    let toml = r#"
        [[group]]
        format = "docker"
          [[group.rule]]
          match = 'x'
          action = "move"
    "#;
    let rules = rules_from_toml(toml);
    assert!(compile_groups(&rules, &no_files()).is_err());
}

#[test]
fn on_mismatch_defaults_to_delete_and_parses_leave() {
    // SAMPLE's reconcile rule omits on_mismatch → Delete (mismatch group).
    let g = sample_group();
    match decide(&g, "myriad/api_server", "1.2.3") {
        Decision::Reconcile { on_mismatch, .. } => {
            assert_eq!(on_mismatch, MismatchPolicy::Delete)
        }
        d => panic!("expected reconcile, got {d:?}"),
    }
    // Explicit on_mismatch = "leave" parses and flows through to the decision.
    let toml = r#"
        [patterns]
        released = '\d+\.\d+\.\d+'
        [[group]]
        format = "docker"
        source_repos = ["r"]
        first_party_prefixes = ["app/"]
          [[group.rule]]
          match = "released"
          action = "reconcile"
          check = "c"
          dest = "d"
          on_mismatch = "leave"
    "#;
    let rules = rules_from_toml(toml);
    let g = compile_groups(&rules, &no_files())
        .unwrap()
        .pop()
        .unwrap();
    match decide(&g, "app/x", "1.2.3") {
        Decision::Reconcile { on_mismatch, .. } => {
            assert_eq!(on_mismatch, MismatchPolicy::Leave)
        }
        d => panic!("expected reconcile, got {d:?}"),
    }
}

#[test]
fn mismatch_assessment_reads_build_times() {
    let mk = |s: Option<&str>, c: Option<&str>| MismatchInfo {
        tag: TagRef {
            source_repo: "docker-internal".into(),
            image: "app/x".into(),
            tag: "1.0.0".into(),
        },
        check_repo: "docker-insight".into(),
        source_digest: "sha256:aaaaaaaaaaaa".into(),
        check_digest: "sha256:bbbbbbbbbbbb".into(),
        source_built: s.map(String::from),
        check_built: c.map(String::from),
        on_mismatch: MismatchPolicy::Delete,
    };
    assert!(mk(Some("2024-06-26"), Some("2024-08-12"))
        .assessment()
        .contains("OLDER"));
    assert!(mk(Some("2024-09-01"), Some("2024-08-12"))
        .assessment()
        .contains("NEWER"));
    assert!(mk(Some("2024-08-12"), Some("2024-08-12"))
        .assessment()
        .contains("same build date"));
    assert!(mk(None, Some("2024-08-12"))
        .assessment()
        .contains("unavailable"));
}

// The classify action routes a released x.y.z tag by explicit per-image list:
// aux image → move to aux_dest; insight image → reconcile against insight_repo
// with absent→Flag (never dropped); image on neither list → Triage.
const CLASSIFY: &str = r#"
    [patterns]
    released = '\d+\.\d+\.\d+'
    [[group]]
    format = "docker"
    source_repos = ["docker-internal"]
    first_party_prefixes = ["myriad/"]
      [[group.rule]]
      match        = "released"
      action       = "classify"
      aux_dest     = "docker-release-aux"
      insight_repo = "docker-insight"
      insight_images = ["myriad/api_internal", "myriad/master"]
      aux_images     = ["myriad/api_internal_debug", "myriad/test"]
"#;

fn classify_group() -> CompiledGroup {
    compile_groups(&rules_from_toml(CLASSIFY), &no_files())
        .unwrap()
        .pop()
        .unwrap()
}

#[test]
fn classify_routes_by_explicit_image_list() {
    let g = classify_group();
    // aux image → plain move to aux_dest (so the self-move guard & grouping
    // reuse the move path).
    assert_eq!(
        decide(&g, "myriad/api_internal_debug", "1.5.0"),
        Decision::Move("docker-release-aux")
    );
    assert_eq!(
        decide(&g, "myriad/test", "1.5.0"),
        Decision::Move("docker-release-aux")
    );
    // insight image → reconcile against insight_repo, absent → Flag (never
    // moved to aux, never auto-dropped).
    assert_eq!(
        decide(&g, "myriad/api_internal", "0.9.5"),
        Decision::Reconcile {
            check: "docker-insight",
            absent: AbsentDest::Flag,
            on_mismatch: MismatchPolicy::Delete,
        }
    );
    // image on NEITHER list → Triage.
    assert_eq!(decide(&g, "myriad/brand_new", "1.0.0"), Decision::Triage);
    // a non-x.y.z tag doesn't match the released rule at all (left for other
    // rules; here there are none → Leave).
    assert_eq!(
        decide(&g, "myriad/api_internal", "develop"),
        Decision::Leave
    );
}

#[test]
fn classify_build_plan_buckets_insight_aux_and_triage() {
    let g = classify_group();
    let inv = vec![
        ("myriad/api_internal".to_string(), "0.9.5".to_string()), // insight → reconcile
        ("myriad/api_internal_debug".to_string(), "1.5.0".to_string()), // aux → move
        ("myriad/brand_new".to_string(), "1.0.0".to_string()),    // neither → triage
    ];
    let plan = build_group_plan(&g, &inv, "docker-internal");
    assert_eq!(plan.moves.len(), 1, "aux image moves");
    assert_eq!(plan.moves[0].dest, "docker-release-aux");
    assert_eq!(plan.reconciles.len(), 1, "insight image reconciles");
    assert_eq!(plan.reconciles[0].absent, AbsentAction::Flag);
    assert_eq!(plan.triage.len(), 1, "unlisted image triaged");
    assert_eq!(plan.triage[0].image, "myriad/brand_new");
}

#[test]
fn classify_rejects_overlap_and_missing_targets() {
    // An image on BOTH lists is a config error.
    let overlap = r#"
        [patterns]
        released = '\d+\.\d+\.\d+'
        [[group]]
        format = "docker"
          [[group.rule]]
          match = "released"
          action = "classify"
          aux_dest = "a"
          insight_repo = "i"
          insight_images = ["myriad/x"]
          aux_images = ["myriad/x"]
    "#;
    let err = match compile_groups(&rules_from_toml(overlap), &no_files()) {
        Ok(_) => panic!("expected overlap error"),
        Err(e) => e.message(),
    };
    assert!(err.contains("BOTH"), "{err}");

    // classify without aux_dest/insight_repo is rejected.
    let missing = r#"
        [[group]]
        format = "docker"
          [[group.rule]]
          match = "x"
          action = "classify"
          insight_images = ["a/b"]
    "#;
    assert!(compile_groups(&rules_from_toml(missing), &no_files()).is_err());
}

#[test]
fn triage_hint_reads_upstream_evidence() {
    let mk = |present: bool, same: bool| TriageItem {
        tag: TagRef {
            source_repo: "docker-internal".into(),
            image: "myriad/x".into(),
            tag: "1.0.0".into(),
        },
        upstream_present: present,
        upstream_same_digest: same,
    };
    assert!(mk(true, true).hint().contains("INSIGHT"));
    assert!(mk(true, false).hint().contains("INSIGHT"));
    assert!(mk(false, false).hint().contains("AUX"));
}

// Move-collision resolution: never clobber an existing dest copy; when the
// dest is empty but several sources collide, keep the newest by build date.
#[test]
fn move_collisions_never_clobber_and_keep_newest() {
    let mv = |src: &str, img: &str, tag: &str, dest: &str| PlannedMove {
        source_repo: src.into(),
        image: img.into(),
        tag: tag.into(),
        dest: dest.into(),
        class: "develop".into(),
    };
    let moves = vec![
        // (a) dest already has master:develop -> both sources superseded.
        mv(
            "docker-internal",
            "myriad/master",
            "develop",
            "docker-prerelease",
        ),
        mv(
            "docker-development-local",
            "myriad/master",
            "develop",
            "docker-prerelease",
        ),
        // (b) dest empty for client:develop; two sources -> keep the newer.
        mv(
            "docker-internal",
            "myriad/client",
            "develop",
            "docker-prerelease",
        ),
        mv(
            "docker-development-local",
            "myriad/client",
            "develop",
            "docker-prerelease",
        ),
        // (c) dest empty, single source -> kept as-is.
        mv(
            "docker-internal",
            "myriad/lonely",
            "develop",
            "docker-prerelease",
        ),
    ];
    let mut present: KeySet<(String, String, String)> = KeySet::new();
    present.insert((
        "docker-prerelease".to_string(),
        "myriad/master".to_string(),
        "develop".to_string(),
    ));
    let mut ts: OrderedMap<(String, String, String), Option<String>> = OrderedMap::new();
    // client: development-local copy is newer than the internal copy.
    ts.insert(
        (
            "docker-internal".into(),
            "myriad/client".into(),
            "develop".into(),
        ),
        Some("2026-05-01T00:00:00Z".into()),
    );
    ts.insert(
        (
            "docker-development-local".into(),
            "myriad/client".into(),
            "develop".into(),
        ),
        Some("2026-06-20T00:00:00Z".into()),
    );

    let (kept, superseded) = resolve_move_collisions(moves, &present, &ts);

    // Kept: client (from development-local, newer) + lonely. master: none.
    assert_eq!(kept.len(), 2, "kept: {kept:?}");
    assert!(kept
        .iter()
        .any(|m| m.image == "myriad/client" && m.source_repo == "docker-development-local"));
    assert!(kept.iter().any(|m| m.image == "myriad/lonely"));
    assert!(!kept.iter().any(|m| m.image == "myriad/master"));

    // Superseded: 2 master (clobber) + 1 client (older).
    assert_eq!(superseded.len(), 3);
    let master_clobber = superseded
        .iter()
        .filter(|s| s.tag.image == "myriad/master")
        .count();
    assert_eq!(master_clobber, 2);
    assert!(superseded
        .iter()
        .all(|s| s.tag.image != "myriad/master" || s.kept.contains("existing copy")));
    let client_loser = superseded
        .iter()
        .find(|s| s.tag.image == "myriad/client")
        .expect("client loser");
    assert_eq!(client_loser.tag.source_repo, "docker-internal");
    assert!(client_loser
        .kept
        .contains("newer copy in docker-development-local"));
}

#[test]
fn move_list_hint_matches_verbosity() {
    assert_eq!(move_list_hint(false), "(full per-tag list: --verbose)");
    assert!(
        move_list_hint(true).contains("Detail section"),
        "with --verbose already on, don't tell the user to pass --verbose"
    );
}
