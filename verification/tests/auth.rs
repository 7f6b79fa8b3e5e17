//! Credentials, grants and the answers to failed checks.
use artifact_depot::auth::{
    check_grants, decode_basic_auth, error_response, map_permission_error, split_credentials,
    unauthorized_response, Capability, CapabilityGrant, RoleRecord,
};
use artifact_depot::error::DepotError;
use base64::Engine;

#[test]
fn test_decode_basic_auth_valid() {
    let encoded = base64::engine::general_purpose::STANDARD.encode("alice:secret123");
    let header = format!("Basic {}", encoded);
    let (user, pass) = decode_basic_auth(&header).expect("decodes");
    assert_eq!(user, "alice");
    assert_eq!(pass, "secret123");
}

#[test]
fn test_decode_basic_auth_no_prefix() {
    assert!(decode_basic_auth("NotBasic abc").is_none());
}

#[test]
fn test_decode_basic_auth_invalid_base64() {
    assert!(decode_basic_auth("Basic !!!invalid!!!").is_none());
}

#[test]
fn test_decode_basic_auth_no_colon() {
    let encoded = base64::engine::general_purpose::STANDARD.encode("nocolon");
    let header = format!("Basic {}", encoded);
    assert!(decode_basic_auth(&header).is_none());
}

#[test]
fn test_map_permission_error_anonymous_gets_basic_challenge() {
    let resp = map_permission_error(DepotError::Forbidden("access denied".into()), "anonymous");
    assert_eq!(resp.status, 401);
    let www_auth = resp.www_authenticate.expect("WWW-Authenticate header present");
    assert_eq!(www_auth, "Basic realm=\"Artifact Depot\"");
}

#[test]
fn test_map_permission_error_authenticated_gets_forbidden() {
    let resp = map_permission_error(DepotError::Forbidden("access denied".into()), "alice");
    assert_eq!(resp.status, 403);
    assert!(resp.www_authenticate.is_none());
}

#[test]
fn test_map_permission_error_non_forbidden_passes_through() {
    let resp = map_permission_error(DepotError::NotFound("missing".into()), "anonymous");
    assert_eq!(resp.status, 404);
}

#[test]
fn only_the_first_colon_splits_credentials() {
    assert_eq!(
        split_credentials(b"alice:a:b".to_vec()),
        Some(("alice".to_string(), "a:b".to_string()))
    );
    assert_eq!(split_credentials(b":".to_vec()), Some((String::new(), String::new())));
    assert_eq!(split_credentials(vec![0xff, b':', b'x']), None);
    assert_eq!(
        split_credentials("j\u{f6}rg:p\u{e4}ss".as_bytes().to_vec()),
        Some(("j\u{f6}rg".to_string(), "p\u{e4}ss".to_string()))
    );
}

#[test]
fn scheme_name_is_case_sensitive() {
    assert!(decode_basic_auth("basic YTpi").is_none());
    assert!(decode_basic_auth("Basic YTpi").is_some());
    assert!(decode_basic_auth("Basic").is_none());
}

fn role(grants: Vec<(Capability, &str)>) -> RoleRecord {
    RoleRecord {
        name: "r".to_string(),
        capabilities: grants
            .into_iter()
            .map(|(capability, repo)| CapabilityGrant { capability, repo: repo.to_string() })
            .collect(),
    }
}

#[test]
fn grants_match_repository_or_star() {
    let roles = vec![
        role(vec![(Capability::Write, "docker")]),
        role(vec![(Capability::Read, "helm"), (Capability::Delete, "*")]),
    ];
    assert!(check_grants(&roles, "docker", Capability::Write).is_ok());
    assert!(check_grants(&roles, "helm", Capability::Read).is_ok());
    assert!(check_grants(&roles, "anything", Capability::Delete).is_ok());
    assert_eq!(
        check_grants(&roles, "docker", Capability::Read),
        Err(DepotError::Forbidden("access denied".to_string()))
    );
    assert!(check_grants(&[], "docker", Capability::Read).is_err());
    // More roles never take a permission away.
    let mut more = roles;
    more.push(role(vec![]));
    assert!(check_grants(&more, "helm", Capability::Read).is_ok());
}

#[test]
fn challenge_can_be_suppressed() {
    assert_eq!(unauthorized_response(true).www_authenticate, None);
    assert_eq!(unauthorized_response(true).status, 401);
    assert_eq!(
        unauthorized_response(false).www_authenticate.as_deref(),
        Some("Basic realm=\"Artifact Depot\"")
    );
}

#[test]
fn every_error_has_its_status() {
    let m = || "m".to_string();
    assert_eq!(error_response(&DepotError::NotFound(m())).status, 404);
    assert_eq!(error_response(&DepotError::Conflict(m())).status, 409);
    assert_eq!(error_response(&DepotError::Forbidden(m())).status, 403);
    assert_eq!(error_response(&DepotError::BadRequest(m())).status, 400);
    assert_eq!(error_response(&DepotError::DataIntegrity(m())).status, 500);
    assert_eq!(error_response(&DepotError::Internal(m())).status, 500);
}
