//! Copying docker tags, and listing tags and images.
use artifact_depot::auth::{Capability, CapabilityGrant, RoleRecord};
use artifact_depot::docker::closure::ClosureWalk;
use artifact_depot::docker::copy::{
    copy_tag, is_answer, CopyAction, CopyEvent, CopyState, TagJob,
};
use artifact_depot::docker::manifest::{config_created, date_step_after, DateStep};
use artifact_depot::docker::paths::{blob_ref_path_for, manifest_path_for, tag_path_for};
use artifact_depot::docker::promote::{
    check_collision, delete_tag, promote_outcome, read_manifest_json, resolve_tag, tag_script,
    PromoteOutcome, TagStep,
};
use artifact_depot::docker::tags::{
    catalog, do_list_tags, paginate_catalog, tag_list_name, union_names, CatalogRepo,
    DockerPaginationParams, TagSource,
};
use artifact_depot::error::DepotError;
use artifact_depot::service::promote::CopyTarget;
use artifact_depot::service::records::{ArtifactKind, ArtifactRecord, CURRENT_RECORD_VERSION};
use artifact_depot::time::Timestamp;

fn s(t: &str) -> String {
    t.to_string()
}

fn texts(ts: &[&str]) -> Vec<String> {
    ts.iter().map(|t| t.to_string()).collect()
}

fn record(kind: ArtifactKind, blob_id: Option<&str>, size: u64) -> ArtifactRecord {
    let at = Timestamp { secs: 1, nanos: 0 };
    ArtifactRecord {
        schema_version: CURRENT_RECORD_VERSION,
        id: s(""),
        size,
        content_type: s("application/json"),
        kind,
        created_at: at,
        updated_at: at,
        last_accessed_at: at,
        path: s("p"),
        internal: false,
        blob_id: blob_id.map(s),
        content_hash: None,
        etag: None,
    }
}

fn target() -> CopyTarget<'static> {
    CopyTarget { source_repo: "src", source_store: "s1", dest_repo: "dst", dest_store: "s1" }
}

#[test]
fn paths_stand_under_the_image() {
    assert_eq!(tag_path_for(None, "v1"), "_tags/v1");
    assert_eq!(tag_path_for(Some("a/b"), "v1"), "a/b/_tags/v1");
    assert_eq!(manifest_path_for(Some("a"), "sha256:m"), "a/_manifests/sha256:m");
    assert_eq!(manifest_path_for(None, "sha256:m"), "_manifests/sha256:m");
    assert_eq!(blob_ref_path_for("sha256:b"), "_blobs/sha256:b");
}

#[test]
fn tags_resolve_to_their_root_manifest() {
    let t = target();
    let rec = record(ArtifactKind::DockerTag { digest: s("sha256:m"), tag: s("v1") }, None, 0);
    assert_eq!(resolve_tag(&t, None, "v1", Some(&rec)), Ok(s("sha256:m")));
    assert_eq!(
        resolve_tag(&t, None, "v1", None),
        Err(DepotError::NotFound(s("tag 'v1' not found in repository 'src'")))
    );
    assert_eq!(
        resolve_tag(&t, Some("img"), "v1", Some(&record(ArtifactKind::Raw, None, 0))),
        Err(DepotError::DataIntegrity(s("record at 'img/_tags/v1' in 'src' is not a Docker tag")))
    );
    assert_eq!(check_collision(&t, "v1", false, false), Ok(()));
    assert_eq!(check_collision(&t, "v1", true, true), Ok(()));
    assert_eq!(
        check_collision(&t, "v1", false, true),
        Err(DepotError::Conflict(s(
            "tag 'v1' already exists in repository 'dst' (set overwrite to replace)"
        )))
    );
}

#[test]
fn the_closure_is_walked_once() {
    // A list whose second child repeats the first and refers back to the list.
    let docs = |d: &str| -> Option<Vec<u8>> {
        let text = match d {
            "root" => r#"{"manifests": [{"digest": "arm"}, {"digest": "amd"}, {"digest": "arm"}]}"#,
            "arm" => r#"{"config": {"digest": "c1"}, "layers": [{"digest": "shared"}]}"#,
            "amd" => r#"{"config": {"digest": "c2"}, "layers": [{"digest": "shared"}, {"digest": "l"}]}"#,
            _ => return None,
        };
        Some(text.as_bytes().to_vec())
    };
    let mut walk = ClosureWalk::start("root");
    let mut order = Vec::new();
    while let Some(d) = walk.next() {
        order.push(d.clone());
        let text = docs(&d);
        walk.feed(d, text.as_deref(), "v1", "src").unwrap();
    }
    assert_eq!(order, texts(&["root", "arm", "amd"]));
    assert_eq!(walk.next(), None);

    assert_eq!(
        tag_script(&walk, Some("img"), "v1", true),
        vec![
            TagStep::Copy(s("_blobs/c1")),
            TagStep::Copy(s("_blobs/c2")),
            TagStep::Copy(s("_blobs/l")),
            TagStep::Copy(s("_blobs/shared")),
            TagStep::Copy(s("img/_manifests/root")),
            TagStep::Copy(s("img/_manifests/arm")),
            TagStep::Copy(s("img/_manifests/amd")),
            TagStep::Copy(s("img/_tags/v1")),
            TagStep::DeleteTag,
        ]
    );
    assert_eq!(tag_script(&walk, None, "v1", false).last(), Some(&TagStep::Copy(s("_tags/v1"))));
}

/// Run a copy of a tag: the actions in order. Manifests are found by their paths.
fn run_copy(
    job: &TagJob,
    tag: fn() -> Option<ArtifactRecord>,
    taken: bool,
    manifest: impl Fn(&str) -> Option<&'static str>,
) -> Vec<CopyAction> {
    let t = target();
    let (mut state, mut event) = (CopyState::Start, CopyEvent::Begin);
    let mut done = Vec::new();
    loop {
        assert!(is_answer(&state, &event));
        let (next, action) = copy_tag(&t, job, state, event);
        state = next;
        event = match &action {
            CopyAction::ReadTag(_) => CopyEvent::Tag(tag()),
            CopyAction::ReadDest(_) => CopyEvent::Dest(taken),
            CopyAction::ReadManifest(p) => {
                CopyEvent::Manifest(manifest(p).map(|text| text.as_bytes().to_vec()))
            }
            CopyAction::Copy(p) => CopyEvent::Copied(p != "_blobs/gone"),
            CopyAction::DeleteTag => CopyEvent::Deleted,
            CopyAction::Done(_) | CopyAction::Fail(_) => {
                done.push(action);
                return done;
            }
        };
        done.push(action);
    }
}

fn tag_record() -> Option<ArtifactRecord> {
    Some(record(ArtifactKind::DockerTag { digest: s("root"), tag: s("v1") }, None, 0))
}

fn tag_job(delete_source: bool, overwrite: bool) -> TagJob<'static> {
    TagJob { image: Some("i"), tag: "v1", delete_source, overwrite }
}

fn manifests(path: &str) -> Option<&'static str> {
    match path {
        "i/_manifests/root" => Some(r#"{"manifests": [{"digest": "arm"}]}"#),
        "i/_manifests/arm" => {
            Some(r#"{"config": {"digest": "cfg"}, "layers": [{"digest": "gone"}]}"#)
        }
        _ => None,
    }
}

#[test]
fn a_tag_is_moved_after_all_checks() {
    let read = |p: &str| CopyAction::ReadManifest(s(p));
    let copy = |p: &str| CopyAction::Copy(s(p));
    let done = || CopyAction::Done(PromoteOutcome { digest: s("root"), copied_records: 4 });
    assert_eq!(
        run_copy(&tag_job(true, false), tag_record, false, manifests),
        vec![
            CopyAction::ReadTag(s("i/_tags/v1")),
            CopyAction::ReadDest(s("i/_tags/v1")),
            read("i/_manifests/root"),
            read("i/_manifests/arm"),
            copy("_blobs/cfg"),
            copy("_blobs/gone"),
            copy("i/_manifests/root"),
            copy("i/_manifests/arm"),
            copy("i/_tags/v1"),
            CopyAction::DeleteTag,
            done(),
        ]
    );
    // A copy keeps the source tag; what may be overwritten is not looked at.
    let actions = run_copy(&tag_job(false, true), tag_record, true, manifests);
    assert_eq!(actions.len(), 9);
    assert_eq!(actions[1], read("i/_manifests/root"));
    assert_eq!(actions[7], copy("i/_tags/v1"));
    assert_eq!(actions[8], done());
}

#[test]
fn a_refused_tag_writes_nothing() {
    let read_tag = || CopyAction::ReadTag(s("i/_tags/v1"));
    let fail = |actions: Vec<CopyAction>| -> DepotError {
        assert!(!actions.iter().any(|a| matches!(a, CopyAction::Copy(_) | CopyAction::DeleteTag)));
        match actions.into_iter().last() {
            Some(CopyAction::Fail(e)) => e,
            other => panic!("{other:?}"),
        }
    };
    // A tag that does not resolve is refused before anything else is looked at.
    assert_eq!(
        run_copy(&tag_job(true, false), || None, true, |_| None),
        vec![
            read_tag(),
            CopyAction::Fail(DepotError::NotFound(s("tag 'v1' not found in repository 'src'"))),
        ]
    );
    assert_eq!(
        run_copy(
            &tag_job(true, false),
            || Some(record(ArtifactKind::Raw, None, 0)),
            true,
            |_| None
        ),
        vec![
            read_tag(),
            CopyAction::Fail(DepotError::DataIntegrity(s(
                "record at 'i/_tags/v1' in 'src' is not a Docker tag"
            ))),
        ]
    );
    // A collision comes before a missing manifest.
    assert_eq!(
        run_copy(&tag_job(true, false), tag_record, true, |_| None),
        vec![
            read_tag(),
            CopyAction::ReadDest(s("i/_tags/v1")),
            CopyAction::Fail(DepotError::Conflict(s(
                "tag 'v1' already exists in repository 'dst' (set overwrite to replace)"
            ))),
        ]
    );
    // One that is missing at the end of the walk leaves nothing behind.
    let but_arm = |p: &str| match p {
        "i/_manifests/arm" => None,
        other => manifests(other),
    };
    assert_eq!(
        fail(run_copy(&tag_job(true, true), tag_record, true, but_arm)),
        DepotError::DataIntegrity(s("manifest 'arm' referenced by tag 'v1' is missing in 'src'"))
    );
}

#[test]
fn a_copy_awaits_the_answer_to_its_action() {
    assert!(is_answer(&CopyState::Start, &CopyEvent::Begin));
    assert!(!is_answer(&CopyState::Start, &CopyEvent::Deleted));
    assert!(is_answer(&CopyState::Tag, &CopyEvent::Tag(None)));
    assert!(!is_answer(&CopyState::Tag, &CopyEvent::Dest(false)));
    assert!(!is_answer(&CopyState::Dest { root: s("r") }, &CopyEvent::Manifest(None)));
    assert!(!is_answer(&CopyState::Finished, &CopyEvent::Begin));
    let write = |at: usize| CopyState::Write {
        root: s("r"),
        steps: vec![TagStep::Copy(s("p")), TagStep::DeleteTag],
        at,
        found: vec![],
    };
    assert!(is_answer(&write(0), &CopyEvent::Copied(true)));
    assert!(!is_answer(&write(0), &CopyEvent::Deleted));
    assert!(is_answer(&write(1), &CopyEvent::Deleted));
    assert!(!is_answer(&write(2), &CopyEvent::Deleted));
}

#[test]
fn a_missing_manifest_stops_the_walk() {
    let mut walk = ClosureWalk::start("root");
    let d = walk.next().unwrap();
    assert_eq!(
        walk.feed(d, None, "v1", "src"),
        Err(DepotError::DataIntegrity(s(
            "manifest 'root' referenced by tag 'v1' is missing in 'src'"
        )))
    );
    assert!(walk.manifests.is_empty());
    // A manifest that cannot be parsed refers to nothing.
    let mut walk = ClosureWalk::start("root");
    let d = walk.next().unwrap();
    walk.feed(d, Some(b"?"), "v1", "src").unwrap();
    assert_eq!((walk.manifests.len(), walk.blobs.len(), walk.next()), (1, 0, None));
}

#[test]
fn outcomes_count_the_records_found() {
    assert_eq!(
        promote_outcome(s("sha256:m"), &[true, false, true]),
        PromoteOutcome { digest: s("sha256:m"), copied_records: 2 }
    );
    assert_eq!(promote_outcome(s("m"), &[]).copied_records, 0);
    assert_eq!(delete_tag(Some(&record(ArtifactKind::Raw, None, 7))), Some((-1, -7)));
    assert_eq!(delete_tag(None), None);
    assert_eq!(read_manifest_json(Some(&record(ArtifactKind::Raw, Some("b"), 0))), Some(s("b")));
    assert_eq!(read_manifest_json(Some(&record(ArtifactKind::Raw, Some(""), 0))), None);
    assert_eq!(read_manifest_json(Some(&record(ArtifactKind::Raw, None, 0))), None);
    assert_eq!(read_manifest_json(None), None);
}

fn page(n: Option<usize>, last: Option<&str>) -> DockerPaginationParams {
    DockerPaginationParams { n, last: last.map(s) }
}

#[test]
fn tags_are_listed_page_by_page() {
    let all = texts(&["1.0", "1.1", "2.0"]);
    let source = || TagSource::Repo(texts(&["1.0", "1.1", "2.0"]));
    let r = do_list_tags("repo", Some("img"), source(), &page(None, None));
    assert_eq!((r.names, r.link), (all, None));
    let r = do_list_tags("repo", Some("img"), source(), &page(Some(2), None));
    assert_eq!(r.names, texts(&["1.0", "1.1"]));
    assert_eq!(
        r.link.as_deref(),
        Some("</v2/repo/img/tags/list?n=2&last=1.1>; rel=\"next\"")
    );
    // Following the link leads to the rest.
    let r = do_list_tags("repo", None, source(), &page(Some(2), Some("1.1")));
    assert_eq!((r.names, r.link), (texts(&["2.0"]), None));
    let r = do_list_tags("repo", None, source(), &page(Some(1), Some("0")));
    assert_eq!(r.link.as_deref(), Some("</v2/repo/tags/list?n=1&last=1.0>; rel=\"next\""));
    // An empty page leads nowhere.
    let r = do_list_tags("repo", None, source(), &page(Some(0), None));
    assert_eq!((r.names.len(), r.link), (0, None));
    let r = do_list_tags("repo", None, source(), &page(Some(9), Some("3")));
    assert_eq!((r.names.len(), r.link), (0, None));
    assert_eq!(tag_list_name("repo", Some("img")), "repo/img");
    assert_eq!(tag_list_name("repo", None), "repo");
}

#[test]
fn a_proxy_lists_the_tags_of_the_members_that_answer() {
    // The second member is missing or cannot be read, the third has no tags.
    let source = || {
        TagSource::Proxy(vec![
            Some(texts(&["2.0", "3.0"])),
            None,
            Some(vec![]),
            Some(texts(&["1.0", "2.0", "4.0"])),
        ])
    };
    let r = do_list_tags("proxy", Some("img"), source(), &page(None, None));
    assert_eq!((r.names, r.link), (texts(&["1.0", "2.0", "3.0", "4.0"]), None));
    let r = do_list_tags("proxy", Some("img"), source(), &page(Some(2), Some("1.0")));
    assert_eq!(r.names, texts(&["2.0", "3.0"]));
    assert_eq!(
        r.link.as_deref(),
        Some("</v2/proxy/img/tags/list?n=2&last=3.0>; rel=\"next\"")
    );
    let r = do_list_tags("proxy", None, TagSource::Proxy(vec![None]), &page(None, None));
    assert_eq!((r.names.len(), r.link), (0, None));
}

#[test]
fn the_catalog_unites_readable_repositories() {
    let roles = vec![RoleRecord {
        name: s("r"),
        capabilities: vec![
            CapabilityGrant { capability: Capability::Read, repo: s("a") },
            CapabilityGrant { capability: Capability::Write, repo: s("b") },
            CapabilityGrant { capability: Capability::Read, repo: s("c") },
        ],
    }];
    let repo = |name: &str, docker: bool| CatalogRepo { name: s(name), docker };
    assert_eq!(
        catalog(vec![repo("a", true), repo("b", true), repo("c", false)], &roles),
        texts(&["a"])
    );
    let lists = vec![texts(&["c/z", "c/a"]), texts(&["b", "c/a"]), vec![]];
    assert_eq!(union_names(&lists), texts(&["b", "c/a", "c/z"]));
    let r = paginate_catalog(&lists, &page(Some(2), None), "/v2/_catalog");
    assert_eq!(r.names, texts(&["b", "c/a"]));
    assert_eq!(r.link.as_deref(), Some("</v2/_catalog?n=2&last=c/a>; rel=\"next\""));
}

#[test]
fn build_dates_are_looked_up_step_by_step() {
    let list = br#"{"manifests": [{"digest": "child"}], "config": {"digest": "own"}}"#;
    assert_eq!(date_step_after(list, false), DateStep::Manifest(s("child")));
    // One level only.
    assert_eq!(date_step_after(list, true), DateStep::Config(s("own")));
    assert_eq!(date_step_after(br#"{"config": {"digest": "c"}}"#, false), DateStep::Config(s("c")));
    assert_eq!(date_step_after(br#"{"manifests": []}"#, false), DateStep::Unknown);
    assert_eq!(date_step_after(b"no json", false), DateStep::Unknown);
    assert_eq!(config_created(br#"{"created": "2024-01-02T03:04:05Z"}"#), Some(s("2024-01-02T03:04:05Z")));
    assert_eq!(config_created(br#"{"created": 5}"#), None);
    assert_eq!(config_created(b"["), None);
}
