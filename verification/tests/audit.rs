//! The audit of shadowed tags.
use artifact_depot::audit::{
    audit_result, audit_showable, classify, collect_holders, count_hidden, date, group_members,
    is_shared, judge, member_line, order_copies, order_message, print_audit, settle_tag, short,
    type_of, Cloak, Holder, MemberRepo, TagVerdict,
};

#[test]
fn classify_distinguishes_mirror_from_cloak() {
    // Single holder → never a cloak.
    assert_eq!(classify(&[("hosted", "sha256:a")]), (false, 0));
    // Two holders, same digest → mirror, not a cloak.
    assert_eq!(
        classify(&[("hosted", "sha256:a"), ("cache", "sha256:a")]),
        (false, 0)
    );
    // Winner + a different-digest hosted loser → cloak, no cache hidden.
    assert_eq!(
        classify(&[("hosted", "sha256:a"), ("hosted", "sha256:b")]),
        (true, 0)
    );
    // Cache loser with the SAME digest as the winner is a mirror, not hidden;
    // the different-digest hosted loser still makes it a cloak.
    assert_eq!(
        classify(&[
            ("hosted", "sha256:a"),
            ("hosted", "sha256:b"),
            ("cache", "sha256:a"),
        ]),
        (true, 0)
    );
    // Cache loser with a DIFFERENT digest than the winner → canonical hidden.
    assert_eq!(
        classify(&[("hosted", "sha256:a"), ("cache", "sha256:b")]),
        (true, 1)
    );
}

fn s(t: &str) -> String {
    t.to_string()
}

fn repo(name: &str, repo_type: &str, members: &[&str]) -> MemberRepo {
    MemberRepo {
        name: s(name),
        repo_type: s(repo_type),
        members: members.iter().map(|m| m.to_string()).collect(),
    }
}

fn holder(order: usize, member: &str, repo_type: &str, digest: &str) -> Holder {
    Holder {
        order,
        member: s(member),
        repo_type: s(repo_type),
        digest: s(digest),
        built: None,
        accessed: None,
    }
}

#[test]
fn the_group_must_exist_and_have_members() {
    let repos = vec![repo("g", "proxy", &["a", "b"]), repo("a", "hosted", &[]), repo("b", "cache", &[])];
    assert_eq!(group_members(&repos, "g"), Ok(vec![s("a"), s("b")]));
    assert_eq!(group_members(&repos, "x"), Err(s("group repo 'x' not found")));
    assert_eq!(
        group_members(&repos, "a"),
        Err(s("'a' has no members (type 'hosted'); not a group/proxy repo"))
    );
    assert_eq!(type_of(&repos, "b"), "cache");
    assert_eq!(type_of(&repos, "x"), "?");
    assert_eq!(
        order_message("g", &repos, &[s("a"), s("x")]),
        "Auditing group 'g' resolution order:\n  1. a (hosted)\n  2. x (?)"
    );
    assert_eq!(member_line("a", 7), "  (a) holds 7 tag(s)");
}

#[test]
fn tags_are_collected_with_their_holders() {
    let holders = collect_holders(&[
        vec![(s("i"), s("2")), (s("i"), s("1"))],
        vec![],
        vec![(s("i"), s("1"))],
    ]);
    assert_eq!(holders.len(), 2);
    assert_eq!(holders.get(&(s("i"), s("1"))), Some(&vec![0, 2]));
    assert_eq!(holders.key_at(0), &(s("i"), s("1")));
    assert!(is_shared(holders.value_at(0)) && !is_shared(holders.value_at(1)));
}

#[test]
fn copies_are_judged_in_member_order() {
    let copies = order_copies(vec![
        holder(2, "c", "cache", "d1"),
        holder(0, "a", "hosted", "d2"),
        holder(1, "b", "hosted", "d2"),
    ]);
    assert_eq!(copies.iter().map(|h| h.order).collect::<Vec<_>>(), vec![0, 1, 2]);
    assert_eq!(judge(&copies), (true, 1));
    match settle_tag("i", "t", vec![holder(1, "b", "cache", "y"), holder(0, "a", "hosted", "x")]) {
        TagVerdict::Cloaked(c) => {
            assert_eq!((c.image.as_str(), c.tag.as_str(), c.cache_hidden), ("i", "t", 1));
            assert_eq!(c.holders[0].member, "a");
        }
        other => panic!("{other:?}"),
    }
    assert!(matches!(settle_tag("i", "t", vec![holder(0, "a", "hosted", "x")]), TagVerdict::Alone));
    assert!(matches!(
        settle_tag("i", "t", vec![holder(0, "a", "hosted", "x"), holder(1, "b", "cache", "x")]),
        TagVerdict::Benign
    ));
}

#[test]
fn the_audit_is_printed_exactly() {
    assert_eq!(
        print_audit(&[], 3),
        vec![
            "\n3 tag(s) held by >1 member; 3 are identical (same digest, harmless).",
            "\nNo cloaks: every multi-member tag resolves to identical content. \u{2713}",
        ]
    );
    let mut first = holder(0, "a", "hosted", "sha256:0123456789abcdef");
    first.built = Some(s("2024-01-01"));
    first.accessed = Some(s("2024-02-02"));
    let cloak = Cloak {
        image: s("i"),
        tag: s("t"),
        holders: vec![
            first,
            holder(1, "m", "cache", "sha256:0123456789abcdef"),
            holder(2, "c", "cache", "other"),
            holder(3, "h", "hosted", "third"),
        ],
        cache_hidden: 1,
    };
    let cloaks = vec![cloak];
    assert!(audit_showable(&cloaks));
    assert_eq!(count_hidden(&cloaks), 1);
    assert_eq!(
        print_audit(&cloaks, 0),
        vec![
            "\n1 tag(s) held by >1 member; 0 are identical (same digest, harmless).",
            "\n1 tag(s) cloaked \u{2014} an earlier member hides a DIFFERENT-digest copy below (a same-digest loser is just a 'mirror', shown for context):",
            "  i:t",
            "      winner  -> (a) hosted [sha256:0123456789ab]  built 2024-01-01  last-pull 2024-02-02",
            "      mirror  -> (m) cache [sha256:0123456789ab]  built ?  last-pull never/unknown",
            "      cloaked -> (c) cache [other]  built ?  last-pull never/unknown   <-- CACHE HIDDEN (canonical content overridden)",
            "      cloaked -> (h) hosted [third]  built ?  last-pull never/unknown",
            "\n\u{26a0}  1 cache copy(ies) are cloaked by an earlier member with different content. Resolve these (delete/repoint the hosted copy, or reorder) before relying on the group to serve the canonical image.",
        ]
    );
    assert_eq!(audit_result(&cloaks), Err(s("1 cache tag(s) cloaked")));
    let harmless = vec![Cloak {
        image: s("i"),
        tag: s("t"),
        holders: vec![holder(0, "a", "hosted", "x"), holder(1, "b", "hosted", "y")],
        cache_hidden: 0,
    }];
    let lines = print_audit(&harmless, 0);
    assert_eq!(
        lines.last().unwrap(),
        "\nNo cache members are cloaked by different content (the dangerous direction). \u{2713}"
    );
    assert_eq!(audit_result(&harmless), Ok(()));
    assert_eq!(audit_result(&[]), Ok(()));
}

#[test]
fn dates_and_digests_are_cut() {
    assert_eq!(date("2024-01-02T03:04:05Z"), "2024-01-02");
    assert_eq!(date("2024"), "2024");
    assert_eq!(short("sha256:0123456789abcdef"), "sha256:0123456789ab");
    assert_eq!(short("nodigest"), "nodigest");
}
