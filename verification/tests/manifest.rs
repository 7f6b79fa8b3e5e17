//! What a manifest refers to.
use artifact_depot::docker::manifest::{classify_manifest, extract_manifest_refs};

#[test]
fn classify_image_manifest_yields_config_and_layers() {
    let json = br#"{
        "schemaVersion": 2,
        "mediaType": "application/vnd.docker.distribution.manifest.v2+json",
        "config": {"digest": "sha256:cfg"},
        "layers": [{"digest": "sha256:l1"}, {"digest": "sha256:l2"}]
    }"#;
    let (children, blobs) = classify_manifest(json);
    assert!(children.is_empty());
    assert_eq!(blobs, vec!["sha256:cfg", "sha256:l1", "sha256:l2"]);
}

#[test]
fn classify_manifest_list_yields_children() {
    let json = br#"{
        "schemaVersion": 2,
        "mediaType": "application/vnd.docker.distribution.manifest.list.v2+json",
        "manifests": [{"digest": "sha256:amd64"}, {"digest": "sha256:arm64"}]
    }"#;
    let (children, blobs) = classify_manifest(json);
    assert_eq!(children, vec!["sha256:amd64", "sha256:arm64"]);
    assert!(blobs.is_empty());
}

#[test]
fn test_extract_manifest_refs_single_manifest() {
    let json = r#"{
        "schemaVersion": 2,
        "config": {"digest": "sha256:configaaa", "size": 50},
        "layers": [
            {"digest": "sha256:layer111", "size": 100},
            {"digest": "sha256:layer222", "size": 200}
        ]
    }"#;
    let refs = extract_manifest_refs(json);
    assert_eq!(refs.len(), 3);
    assert!(refs.contains(&"sha256:configaaa".to_string()));
    assert!(refs.contains(&"sha256:layer111".to_string()));
    assert!(refs.contains(&"sha256:layer222".to_string()));
}

#[test]
fn test_extract_manifest_refs_manifest_list() {
    let json = r#"{
        "schemaVersion": 2,
        "manifests": [
            {"digest": "sha256:child1", "platform": {"architecture": "amd64"}},
            {"digest": "sha256:child2", "platform": {"architecture": "arm64"}}
        ]
    }"#;
    let refs = extract_manifest_refs(json);
    assert_eq!(refs.len(), 2);
    assert!(refs.contains(&"sha256:child1".to_string()));
    assert!(refs.contains(&"sha256:child2".to_string()));
}

#[test]
fn test_extract_manifest_refs_invalid_json() {
    assert!(extract_manifest_refs("not{json").is_empty());
}

#[test]
fn test_extract_manifest_refs_empty_object() {
    assert!(extract_manifest_refs("{}").is_empty());
}

#[test]
fn entries_without_a_text_digest_are_passed_over() {
    let json = br#"{"layers": [{"digest": 5}, {}, "x", {"digest": "sha256:l"}]}"#;
    assert_eq!(classify_manifest(json).1, vec!["sha256:l"]);
    // A list that is empty is still a list.
    let json = br#"{"manifests": [], "config": {"digest": "sha256:c"}}"#;
    let (children, blobs) = classify_manifest(json);
    assert!(children.is_empty() && blobs.is_empty());
    // A member that is no list makes no list.
    let json = br#"{"manifests": {}, "config": {"digest": "sha256:c"}}"#;
    assert_eq!(classify_manifest(json).1, vec!["sha256:c"]);
    // References are taken from every part.
    assert_eq!(
        extract_manifest_refs(
            r#"{"manifests": [{"digest": "m"}], "config": {"digest": "c"}, "layers": [{"digest": "l"}]}"#
        ),
        vec!["c", "l", "m"]
    );
}
