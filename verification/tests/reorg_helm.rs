//! Planning the reorganisation of helm repositories.
use artifact_depot::ordered::OrderedMap;
use artifact_depot::reorg_helm::{
    index_versions, ApplySelection, AuthorityConfig, ChartVersion, Compiled, HelmAction, HelmGroup,
    HelmRule, HelmRulesFile, Plan, PlannedOp,
};

fn text(t: &toml::Table, key: &str) -> Option<String> {
    t.get(key).map(|v| v.as_str().unwrap().to_string())
}

fn tables<'a>(t: &'a toml::Table, key: &str) -> Vec<&'a toml::Table> {
    match t.get(key) {
        Some(v) => v.as_array().unwrap().iter().map(|x| x.as_table().unwrap()).collect(),
        None => Vec::new(),
    }
}

fn rules_from_toml(source: &str) -> HelmRulesFile {
    let doc: toml::Table = toml::from_str(source).unwrap();
    let mut patterns: OrderedMap<String, String> = OrderedMap::new();
    for (name, p) in doc["patterns"].as_table().unwrap() {
        patterns.insert(name.clone(), p.as_str().unwrap().to_string());
    }
    HelmRulesFile {
        patterns,
        first_party: doc["first_party"]
            .as_array()
            .unwrap()
            .iter()
            .map(|s| s.as_str().unwrap().to_string())
            .collect(),
        authority: doc.get("authority").map(|v| {
            let t = v.as_table().unwrap();
            AuthorityConfig { url: text(t, "url").unwrap(), repo: text(t, "repo").unwrap() }
        }),
        groups: tables(&doc, "groups")
            .into_iter()
            .map(|g| HelmGroup {
                source: text(g, "source").unwrap(),
                rules: tables(g, "rules")
                    .into_iter()
                    .map(|r| HelmRule {
                        class: text(r, "class").unwrap(),
                        dest: text(r, "dest"),
                        action: text(r, "action"),
                    })
                    .collect(),
                retire: g.get("retire").map(|b| b.as_bool().unwrap()).unwrap_or(false),
            })
            .collect(),
    }
}

fn parse_index(yaml: &[u8]) -> Option<Vec<ChartVersion>> {
    let doc: serde_yml::Value = serde_yml::from_slice(yaml).ok()?;
    let mut entries: OrderedMap<String, Vec<ChartVersion>> = OrderedMap::new();
    for (name, versions) in doc.get("entries")?.as_mapping()? {
        let list = versions
            .as_sequence()?
            .iter()
            .map(|e| ChartVersion {
                name: e["name"].as_str().unwrap().to_string(),
                version: e["version"].as_str().unwrap().to_string(),
                digest: e["digest"].as_str().unwrap_or("").to_string(),
            })
            .collect();
        entries.insert(name.as_str()?.to_string(), list);
    }
    Some(index_versions(&entries))
}

const SAMPLE: &str = r#"
    first_party = ["myriad", "myriad-uui", "quantum-orchestrator", "observability", "perfsuite", "garage", "flexsync"]

    [authority]
    url = "https://insight.example.com"
    repo = "helm-release"

    [patterns]
    released   = '^\d+\.\d+\.\d+$'
    prerelease = '^\d+\.\d+\.\d+-(dev|rc)\.\d+$'
    branch     = '^\d+\.\d+\.\d+-(develop|main|master)$'
    junk       = '(deleteme|^1\.0\.0-0-9-0$)'

    [[groups]]
    source = "helm-external"
    retire = false

      [[groups.rules]]
      class = "junk"
      action = "delete"

      [[groups.rules]]
      class = "released"
      action = "delete-if-on-authority"

      [[groups.rules]]
      class = "prerelease"
      dest = "helm-prerelease"

      [[groups.rules]]
      class = "branch"
      dest = "helm-prerelease"

    [[groups]]
    source = "helm-internal"
    retire = true

      [[groups.rules]]
      class = "prerelease"
      dest = "helm-prerelease"
"#;

fn compiled() -> Compiled {
    let file = rules_from_toml(SAMPLE);
    Compiled::compile(file).unwrap()
}

#[test]
fn rules_compile_with_all_actions() {
    let c = compiled();
    assert_eq!(c.groups.len(), 2);
    assert_eq!(c.patterns.len(), 4);
    assert_eq!(c.authority.as_ref().unwrap().repo, "helm-release");
    // helm-external: junk→delete, released→verify, prerelease/branch→move
    assert_eq!(c.groups[0].rules.len(), 4);
}

#[test]
fn first_party_prefix_match() {
    let c = compiled();
    assert!(c.is_first_party("myriad"));
    assert!(c.is_first_party("myriad-uui"));
    assert!(c.is_first_party("quantum-orchestrator"));
    // third-party charts are never first-party
    assert!(!c.is_first_party("cilium"));
    assert!(!c.is_first_party("ingress-nginx"));
    assert!(!c.is_first_party("minio"));
}

#[test]
fn classify_each_class() {
    let c = compiled();
    let g = &c.groups[0]; // helm-external
    let action_for = |v: &str| c.classify(g, v).map(|(_, a)| a);

    assert_eq!(action_for("1.4.2"), Some(HelmAction::DeleteIfOnAuthority));
    assert_eq!(
        action_for("1.6.0-dev.145"),
        Some(HelmAction::Move {
            dest: "helm-prerelease".into()
        })
    );
    assert_eq!(
        action_for("1.0.0-develop"),
        Some(HelmAction::Move {
            dest: "helm-prerelease".into()
        })
    );
    assert_eq!(action_for("0.9.0-deleteme"), Some(HelmAction::Delete));
    assert_eq!(action_for("1.0.0-0-9-0"), Some(HelmAction::Delete));
    // CI-ish version no rule covers → unclassified
    assert_eq!(action_for("1.0.0-jss-dev-4"), None);
}

#[test]
fn junk_rule_wins_before_released() {
    // Order matters: `1.0.0-0-9-0` must hit junk (listed first), not fall
    // through — and a plain released version must NOT match junk.
    let c = compiled();
    let g = &c.groups[0];
    assert_eq!(c.classify(g, "1.0.0-0-9-0").unwrap().0, "junk");
    assert_eq!(c.classify(g, "1.5.1").unwrap().0, "released");
}

#[test]
fn parse_index_extracts_name_version_digest() {
    let yaml = br#"
apiVersion: v1
entries:
  myriad:
    - name: myriad
      version: "1.4.2"
      digest: "sha256:abc123"
    - name: myriad
      version: "1.6.0-dev.145"
      digest: "sha256:def456"
  myriad-uui:
    - name: myriad-uui
      version: "1.0.0-develop"
      digest: "sha256:aaa"
"#;
    let mut versions = parse_index(yaml).unwrap();
    versions.sort_by(|a, b| (&a.name, &a.version).cmp(&(&b.name, &b.version)));
    assert_eq!(versions.len(), 3);
    assert_eq!(versions[0].name, "myriad");
    assert_eq!(versions[0].version, "1.4.2");
    assert_eq!(versions[0].digest, "sha256:abc123");
    assert_eq!(versions[2].name, "myriad-uui");
}

#[test]
fn plan_buckets_third_party_and_unclassified() {
    // Build a plan by hand from a parsed index to exercise bucketing
    // without a live server.
    let c = compiled();
    let g = &c.groups[0];
    let index: Vec<ChartVersion> = vec![
        ("myriad", "1.4.2"),           // released → verify-delete
        ("myriad", "1.6.0-dev.145"),   // prerelease → move
        ("myriad", "0.9.0-deleteme"),  // junk → delete
        ("myriad", "1.0.0-jss-dev-4"), // first-party, no rule → unclassified
        ("cilium", "1.15.0"),          // third-party → skip
    ]
    .into_iter()
    .map(|(n, v)| ChartVersion {
        name: n.into(),
        version: v.into(),
        digest: String::new(),
    })
    .collect();

    let mut plan = Plan::default();
    for cv in index {
        if !c.is_first_party(&cv.name) {
            plan.third_party_skipped += 1;
            continue;
        }
        match c.classify(g, &cv.version) {
            Some((class, action)) => plan.ops.push(PlannedOp {
                source: g.source.clone(),
                name: cv.name.clone(),
                version: cv.version.clone(),
                digest: cv.digest.clone(),
                class,
                action,
            }),
            None => plan.unclassified.push((g.source.clone(), cv)),
        }
    }
    assert_eq!(plan.ops.len(), 3, "released+prerelease+junk classified");
    assert_eq!(plan.third_party_skipped, 1, "cilium skipped");
    assert_eq!(plan.unclassified.len(), 1, "jss-dev unclassified");
    assert_eq!(plan.unclassified[0].1.version, "1.0.0-jss-dev-4");
}

#[test]
fn apply_selection_parses() {
    let all = ApplySelection::parse("all");
    assert!(all.moves && all.deletes && all.verify_deletes);
    let moves_only = ApplySelection::parse("move");
    assert!(moves_only.moves && !moves_only.deletes && !moves_only.verify_deletes);
    let two = ApplySelection::parse("move, verify-delete");
    assert!(two.moves && !two.deletes && two.verify_deletes);
}

#[test]
fn reorg_helm_move_without_dest_is_rejected() {
    let bad = r#"
        first_party = ["myriad"]
        [patterns]
        prerelease = '^\d+\.\d+\.\d+-dev\.\d+$'
        [[groups]]
        source = "helm-external"
          [[groups.rules]]
          class = "prerelease"
          action = "move"
    "#;
    let file = rules_from_toml(bad);
    assert!(
        Compiled::compile(file).is_err(),
        "move with no dest must error"
    );
}

#[test]
fn unknown_pattern_reference_is_rejected() {
    let bad = r#"
        first_party = ["myriad"]
        [patterns]
        prerelease = '^\d+\.\d+\.\d+-dev\.\d+$'
        [[groups]]
        source = "helm-external"
          [[groups.rules]]
          class = "nonexistent"
          dest = "helm-prerelease"
    "#;
    let file = rules_from_toml(bad);
    assert!(
        Compiled::compile(file).is_err(),
        "unknown pattern must error"
    );
}
