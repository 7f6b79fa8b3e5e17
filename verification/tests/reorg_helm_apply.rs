//! Reporting and applying a helm plan.
use artifact_depot::ordered::OrderedMap;
use artifact_depot::reorg_helm::{
    apply, apply_step, authority_keys, authority_needed, plan, print_plan, ApplySelection,
    AuthorityConfig, ChartVersion, Compiled, HelmAction, HelmGroup, HelmRule, HelmRulesFile,
    HelmStep, HelmTally, Plan, PlannedOp,
};

fn s(t: &str) -> String {
    t.to_string()
}

fn rule(class: &str, dest: Option<&str>, action: Option<&str>) -> HelmRule {
    HelmRule { class: s(class), dest: dest.map(s), action: action.map(s) }
}

fn file(rules: Vec<HelmRule>) -> HelmRulesFile {
    let mut patterns: OrderedMap<String, String> = OrderedMap::new();
    patterns.insert(s("released"), s(r"^\d+\.\d+\.\d+$"));
    patterns.insert(s("dev"), s("-dev"));
    patterns.insert(s("junk"), s("junk"));
    HelmRulesFile {
        patterns,
        first_party: vec![s("app")],
        authority: Some(AuthorityConfig { url: s("https://up"), repo: s("rel") }),
        groups: vec![HelmGroup { source: s("src"), rules, retire: true }],
    }
}

fn compiled() -> Compiled {
    Compiled::compile(file(vec![
        rule("junk", None, Some("delete")),
        rule("released", None, Some("delete-if-on-authority")),
        rule("dev", Some("pre"), None),
    ]))
    .unwrap()
}

fn chart(name: &str, version: &str, digest: &str) -> ChartVersion {
    ChartVersion { name: s(name), version: s(version), digest: s(digest) }
}

fn message(rules: Vec<HelmRule>) -> String {
    match Compiled::compile(file(rules)) {
        Ok(_) => panic!("compiles"),
        Err(e) => e.message(),
    }
}

#[test]
fn every_helm_rule_error_has_its_message() {
    assert_eq!(
        message(vec![rule("none", Some("d"), None)]),
        "group 'src' references unknown pattern 'none'"
    );
    assert_eq!(
        message(vec![rule("dev", None, Some("move"))]),
        "group 'src' rule for class 'dev' is a move but has no dest"
    );
    assert_eq!(message(vec![rule("dev", Some("d"), Some("burn"))]), "unknown action 'burn'");
    let mut bad = file(vec![]);
    bad.patterns.insert(s("broken"), s("("));
    match Compiled::compile(bad) {
        Ok(_) => panic!("compiles"),
        Err(e) => assert_eq!(e.message(), "bad regex for pattern 'broken'"),
    }
}

fn sample_plan() -> Plan {
    let c = compiled();
    let mut p = Plan::default();
    plan(
        &mut p,
        &c,
        &c.groups[0],
        &[
            chart("app", "1.0.0", "d1"),
            chart("app", "2.0.0", "d2"),
            chart("app", "2.1.0-dev.1", ""),
            chart("app", "0-junk", ""),
            chart("app", "odd", ""),
            chart("nginx", "1.0.0", ""),
        ],
    );
    p
}

#[test]
fn the_plan_is_printed_exactly() {
    let p = sample_plan();
    assert_eq!((p.ops.len(), p.unclassified.len(), p.third_party_skipped), (4, 1, 1));
    assert_eq!(
        print_plan(&p, &compiled()),
        vec![
            "\n=== Helm reorg plan ===".to_string(),
            format!("  MOVE  {:>5} chart-versions -> pre", 1),
            format!("  DELETE {:>4} chart-versions (junk/superseded)", 1),
            format!("  VERIFY+DELETE {:>4} released versions (drop locally iff upstream authority https://up/repository/rel serves the same digest)", 2),
            format!("  SKIP  {:>5} third-party chart-versions (untouched)", 1),
            "\n  UNCLASSIFIED (1) \u{2014} first-party but no rule matched; NOTHING will be done:".to_string(),
            "    src: app:odd".to_string(),
            "\n  RETIRE 'src' \u{2014} 4 version(s) leave via move/delete; 1 unclassified would remain (handle these before deleting the repo)".to_string(),
        ]
    );
    assert_eq!(
        print_plan(&Plan::default(), &compiled()),
        vec![
            "\n=== Helm reorg plan ===".to_string(),
            format!("  SKIP  {:>5} third-party chart-versions (untouched)", 0),
            "\n  RETIRE 'src' \u{2014} 0 version(s) leave via move/delete; 0 unclassified would remain (repo will be empty of first-party charts)".to_string(),
        ]
    );
}

#[test]
fn at_most_forty_unclassified_versions_are_listed() {
    let mut p = Plan::default();
    for i in 0..43 {
        p.unclassified.push((s("src"), chart("app", &format!("v{i}"), "")));
    }
    let lines = print_plan(&p, &compiled());
    assert!(lines.contains(&s("    src: app:v39")));
    assert!(!lines.contains(&s("    src: app:v40")));
    assert!(lines.contains(&s("    \u{2026} and 3 more")));
}

#[test]
fn released_versions_are_dropped_only_with_the_authority() {
    let p = sample_plan();
    let all = ApplySelection::parse("all");
    let keys = authority_keys(&[chart("app", "1.0.0", "d1"), chart("app", "2.0.0", "other")]);
    let steps = apply(&p, &all, &Some(keys));
    assert_eq!(
        steps,
        vec![
            HelmStep::VerifiedDelete,
            HelmStep::Skip(s("  SKIP delete app:2.0.0 \u{2014} authority does not serve this exact digest; republish upstream before removing the local copy")),
            HelmStep::Move(s("pre")),
            HelmStep::Delete,
        ]
    );
    let mut tally = HelmTally { moved: 0, deleted: 0, verified_deleted: 0, skipped_missing: 0 };
    for step in &steps {
        tally.count(step);
    }
    assert_eq!(
        tally.line(),
        "\nApplied: 1 moved, 1 deleted, 1 verified-deleted, 1 skipped (not on authority)"
    );
    // Without an answer nothing is dropped.
    assert!(matches!(apply_step(&p.ops[0], &all, &None), HelmStep::Skip(_)));
    // What is not selected is not touched.
    let none = ApplySelection::parse("");
    assert!(apply(&p, &none, &None).iter().all(|x| *x == HelmStep::Nothing));
}

#[test]
fn a_version_is_not_taken_for_another_that_reads_alike() {
    let op = |name: &str, version: &str, digest: &str| PlannedOp {
        source: s("src"),
        name: s(name),
        version: s(version),
        digest: s(digest),
        class: s("released"),
        action: HelmAction::DeleteIfOnAuthority,
    };
    let all = ApplySelection::parse("verify-delete");
    let keys = Some(authority_keys(&[chart("a", "1", "x:y")]));
    assert_eq!(apply_step(&op("a", "1", "x:y"), &all, &keys), HelmStep::VerifiedDelete);
    assert!(matches!(apply_step(&op("a", "1:x", "y"), &all, &keys), HelmStep::Skip(_)));
    assert!(matches!(apply_step(&op("a:1", "x", "y"), &all, &keys), HelmStep::Skip(_)));
}

#[test]
fn the_authority_is_asked_only_where_it_counts() {
    let p = sample_plan();
    let all = ApplySelection::parse("all");
    assert_eq!(authority_needed(&p, &all, true), Ok(true));
    assert_eq!(
        authority_needed(&p, &all, false),
        Err(s("verify-delete selected but no [authority] configured in the rules file"))
    );
    assert_eq!(authority_needed(&p, &ApplySelection::parse("move,delete"), false), Ok(false));
    let mut moves = Plan::default();
    moves.ops.push(PlannedOp {
        source: s("src"),
        name: s("app"),
        version: s("1"),
        digest: s(""),
        class: s("dev"),
        action: HelmAction::Move { dest: s("pre") },
    });
    assert_eq!(authority_needed(&moves, &all, false), Ok(false));
}
