//! The docker collector.
use artifact_depot::gc::docker::{
    dead_blobs, dead_manifests, deleted_count, docker_gc, fill_layer_filter, reachable,
    DockerRecords, GcRecord,
};
use artifact_depot::ordered::OrderedMap;
use artifact_depot::time::{is_later, seconds_before, Timestamp};
use bloomfilter::Bloom;

fn s(t: &str) -> String {
    t.to_string()
}

fn at(secs: i64) -> Timestamp {
    Timestamp { secs, nanos: 0 }
}

const LIST: &str = "application/vnd.docker.distribution.manifest.list.v2+json";
const IMAGE: &str = "application/vnd.docker.distribution.manifest.v2+json";

fn record(path: &str, created: i64, size: u64, content_type: &str, tag: Option<&str>) -> GcRecord {
    GcRecord {
        path: s(path),
        created_at: at(created),
        size,
        content_type: s(content_type),
        tag_digest: tag.map(s),
    }
}

fn filter() -> Bloom<[u8]> {
    Bloom::new_for_fp_rate(100, 0.001).unwrap()
}

#[test]
fn records_are_told_apart_by_path() {
    let mut rs = DockerRecords::new();
    rs.note(record("_blobs/sha256:b", 1, 1, "", None));
    rs.note(record("img/_blobs/sha256:b", 1, 1, "", None));
    rs.note(record("_manifests/sha256:m", 1, 1, IMAGE, None));
    rs.note(record("a/b/_manifests/sha256:m", 1, 1, IMAGE, None));
    rs.note(record("_tags/v1", 1, 1, "", Some("sha256:m")));
    rs.note(record("img/_tags/v1", 1, 1, "", None));
    rs.note(record("other", 1, 1, "", Some("sha256:x")));
    assert_eq!((rs.blob_refs.len(), rs.manifests.len()), (2, 2));
    assert_eq!(rs.tag_digests, vec!["sha256:m"]);
    let mut more = DockerRecords::new();
    more.note(record("_tags/v2", 1, 1, "", Some("sha256:n")));
    rs.absorb(more);
    assert_eq!(rs.tag_digests, vec!["sha256:m", "sha256:n"]);
}

fn world() -> (DockerRecords, Vec<Option<String>>) {
    let mut rs = DockerRecords::new();
    let mut texts = Vec::new();
    let mut manifest = |rs: &mut DockerRecords, path: &str, kind: &str, text: Option<&str>| {
        rs.note(record(path, 10, 3, kind, None));
        texts.push(text.map(s));
    };
    manifest(&mut rs, "i/_manifests/list", LIST, Some(r#"{"manifests": [{"digest": "child"}]}"#));
    manifest(&mut rs, "i/_manifests/child", IMAGE, Some(r#"{"config": {"digest": "cfg"}, "layers": [{"digest": "lay"}]}"#));
    manifest(&mut rs, "i/_manifests/orphan-list", LIST, Some(r#"{"manifests": [{"digest": "orphan"}]}"#));
    manifest(&mut rs, "i/_manifests/orphan", IMAGE, Some(r#"{"layers": [{"digest": "old"}]}"#));
    rs.note(record("_blobs/cfg", 10, 5, "", None));
    rs.note(record("_blobs/lay", 10, 5, "", None));
    rs.note(record("_blobs/old", 10, 5, "", None));
    rs.note(record("_blobs/dead", 10, 5, "", None));
    rs.note(record("_blobs/young", 200, 5, "", None));
    rs.note(record("i/_tags/v1", 10, 0, "", Some("list")));
    (rs, texts)
}

#[test]
fn unreferenced_layers_and_unreached_manifests_are_dead() {
    let (rs, texts) = world();
    let plan = docker_gc(&rs, &texts, filter(), at(100), true);
    assert_eq!(plan.blobs, vec![(s("_blobs/dead"), 5)]);
    let mut dead: Vec<&str> = plan.manifests.iter().map(|(p, _)| p.as_str()).collect();
    dead.sort();
    assert_eq!(
        dead,
        vec!["i/_manifests/orphan", "i/_manifests/orphan-list"]
    );
    assert_eq!(deleted_count(&plan, false), 3);
    assert_eq!(deleted_count(&plan, true), 0);
    // Untagged manifests stay where they are to stay.
    let plan = docker_gc(&rs, &texts, filter(), at(100), false);
    assert!(plan.manifests.is_empty());
    assert_eq!(plan.blobs.len(), 1);
}

fn dead_of(rs: &DockerRecords, texts: &[Option<String>]) -> (Vec<String>, Vec<String>) {
    let plan = docker_gc(rs, texts, filter(), at(100), true);
    let paths = |found: Vec<(String, u64)>| found.into_iter().map(|(p, _)| p).collect();
    (paths(plan.blobs), paths(plan.manifests))
}

#[test]
fn layers_of_an_unreadable_manifest_are_spared() {
    // The manifest of the image cannot be read: its config and its layer stay, and
    // so does any other layer, since it could be one of that image.
    let (rs, mut texts) = world();
    texts[1] = None;
    let (blobs, manifests) = dead_of(&rs, &texts);
    assert_eq!(blobs, Vec::<String>::new());
    // No manifest is reached through an image, so the manifests are told apart.
    assert_eq!(manifests, vec!["i/_manifests/orphan-list", "i/_manifests/orphan"]);
    // An untagged manifest that cannot be read may be deleted, its layers not yet.
    let (rs, mut texts) = world();
    texts[3] = None;
    let (blobs, manifests) = dead_of(&rs, &texts);
    assert_eq!(blobs, Vec::<String>::new());
    assert_eq!(manifests.len(), 2);
}

#[test]
fn children_of_an_unreadable_list_are_spared() {
    // A tag reaches the list, and nobody knows what the list leads to.
    let (rs, mut texts) = world();
    texts[0] = None;
    assert_eq!(dead_of(&rs, &texts), (vec![], vec![]));
    assert_eq!(dead_manifests(&rs, &texts, at(100)), vec![]);
    // A list that no tag reaches spares nothing but layers.
    let (rs, mut texts) = world();
    texts[2] = None;
    let (blobs, manifests) = dead_of(&rs, &texts);
    assert_eq!(blobs, Vec::<String>::new());
    assert_eq!(manifests, vec!["i/_manifests/orphan-list", "i/_manifests/orphan"]);
}

#[test]
fn recent_records_are_kept() {
    let (rs, texts) = world();
    // A record made at the cutoff is old enough, one made after it is not.
    assert_eq!(docker_gc(&rs, &texts, filter(), at(10), true).blobs.len(), 1);
    let plan = docker_gc(&rs, &texts, filter(), at(9), true);
    assert!(plan.blobs.is_empty() && plan.manifests.is_empty());
    let plan = docker_gc(&rs, &texts, filter(), at(200), true);
    assert_eq!(plan.blobs, vec![(s("_blobs/dead"), 5), (s("_blobs/young"), 5)]);
    assert_eq!(dead_manifests(&rs, &texts, at(9)), vec![]);
}

#[test]
fn the_layer_filter_holds_every_reference() {
    let (rs, texts) = world();
    let mut f = filter();
    assert_eq!(dead_blobs(&rs.blob_refs, &f, at(1000)).len(), 5);
    fill_layer_filter(&mut f, &texts);
    for d in ["cfg", "lay", "old", "child", "orphan"] {
        assert!(f.check(d.as_bytes()), "{d}");
    }
    assert_eq!(dead_blobs(&rs.blob_refs, &f, at(1000)).len(), 2);
}

#[test]
fn reachability_follows_children_and_ends_on_cycles() {
    let mut map: OrderedMap<String, Vec<String>> = OrderedMap::new();
    map.insert(s("a"), vec![s("b"), s("c")]);
    map.insert(s("b"), vec![s("a")]);
    map.insert(s("x"), vec![s("y")]);
    let seen = reachable(&[s("a"), s("t")], &map);
    assert_eq!(seen.len(), 4);
    for d in ["a", "b", "c", "t"] {
        assert!(seen.contains(&s(d)));
    }
    assert!(!seen.contains(&s("x")) && !seen.contains(&s("y")));
}

#[test]
fn times_are_compared_to_the_nanosecond() {
    let a = Timestamp { secs: 5, nanos: 1 };
    let b = Timestamp { secs: 5, nanos: 2 };
    assert!(is_later(b, a) && !is_later(a, b) && !is_later(a, a));
    assert!(is_later(Timestamp { secs: 6, nanos: 0 }, b));
    assert_eq!(seconds_before(a, 7), Some(Timestamp { secs: -2, nanos: 1 }));
    assert_eq!(seconds_before(Timestamp { secs: i64::MIN, nanos: 0 }, 1), None);
}
