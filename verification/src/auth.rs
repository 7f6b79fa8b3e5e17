//! Who may do what.
use crate::error::{DepotError, DepotErrorView};
use crate::text::{
    after_prefix, decode_text, decoded_text, find_char, lemma_find_char, same_text, split_first,
    split_once, strip_prefix,
};
use base64::Engine;
use vstd::prelude::*;
use vstd::utf8::{encode_utf8, encode_utf8_decode_utf8, encode_utf8_valid_utf8};

verus! {

/// The authenticated identity attached to a request.
#[derive(Debug)]
pub struct AuthenticatedUser(pub String);

/// The bytes that standard base64 with padding encodes as this text, if there
/// are any.
pub uninterp spec fn base64_decoded(text: Seq<char>) -> Option<Seq<u8>>;

/// Calls `decode` of base64's `STANDARD` engine, whose answer depends on the
/// text alone.
#[verifier::external_body]
fn base64_decode(text: &str) -> (r: Option<Vec<u8>>)
    ensures
        r.deep_view() == base64_decoded(text@),
{
    base64::engine::general_purpose::STANDARD.decode(text).ok()
}

/// The user and the password in decoded credentials: UTF-8 text, split at the
/// first colon.
pub open spec fn credentials(bytes: Seq<u8>) -> Option<(Seq<char>, Seq<char>)> {
    match decoded_text(bytes) {
        Some(s) => split_first(s, ':'),
        None => None,
    }
}

/// What a Basic authorization header says.
pub open spec fn basic_auth(header: Seq<char>) -> Option<(Seq<char>, Seq<char>)> {
    match after_prefix(header, "Basic "@) {
        Some(encoded) => match base64_decoded(encoded) {
            Some(bytes) => credentials(bytes),
            None => None,
        },
        None => None,
    }
}

/// Split decoded credentials.
pub fn split_credentials(bytes: Vec<u8>) -> (r: Option<(String, String)>)
    ensures
        r.deep_view() == credentials(bytes@),
{
    match decode_text(bytes) {
        Some(s) => split_once(s.as_str(), ':'),
        None => None,
    }
}

/// Decode an `Authorization: Basic <base64>` header. `None` where it is
/// malformed, of another scheme, or does not decode to `user:pass`.
pub fn decode_basic_auth(header_value: &str) -> (r: Option<(String, String)>)
    ensures
        r.deep_view() == basic_auth(header_value@),
{
    match strip_prefix(header_value, "Basic ") {
        Some(encoded) => match base64_decode(encoded.as_str()) {
            Some(bytes) => {
                assert(bytes.deep_view() =~= bytes@);
                split_credentials(bytes)
            },
            None => None,
        },
        None => None,
    }
}

/// Credentials are read back as they were written: a user without a colon, a
/// colon, and any password.
pub proof fn law_credentials_are_read_back(user: Seq<char>, password: Seq<char>)
    requires
        !user.contains(':'),
    ensures
        credentials(encode_utf8(user + seq![':'] + password)) == Some((user, password)),
{
    let s = user + seq![':'] + password;
    encode_utf8_valid_utf8(s);
    encode_utf8_decode_utf8(s);
    lemma_find_char(s, ':', 0);
    let k = find_char(s, ':', 0);
    assert(s[user.len() as int] == ':');
    if k < user.len() {
        assert(s[k] == user[k]);
    }
    assert(k == user.len());
    assert(s.take(k) =~= user);
    assert(s.skip(k + 1) =~= password);
}

/// Text without a colon holds no credentials.
pub proof fn law_no_colon_no_credentials(text: Seq<char>)
    requires
        !text.contains(':'),
    ensures
        credentials(encode_utf8(text)) is None,
{
    encode_utf8_valid_utf8(text);
    encode_utf8_decode_utf8(text);
    lemma_find_char(text, ':', 0);
}

/// What a grant allows.
#[derive(Debug, Clone, Copy, PartialEq, Eq, Structural)]
pub enum Capability {
    Read,
    Write,
    Delete,
}

/// A capability on one repository, or on all of them by the name `*`.
#[derive(Debug)]
pub struct CapabilityGrant {
    pub capability: Capability,
    pub repo: String,
}

/// A role with its grants.
#[derive(Debug)]
pub struct RoleRecord {
    pub name: String,
    pub capabilities: Vec<CapabilityGrant>,
}

/// A grant covers a capability on a repository.
pub open spec fn grant_covers(g: CapabilityGrant, repo: Seq<char>, required: Capability) -> bool {
    g.capability == required && (g.repo@ == "*"@ || g.repo@ == repo)
}

/// Some role grants a capability on a repository.
pub open spec fn granted(roles: Seq<RoleRecord>, repo: Seq<char>, required: Capability) -> bool {
    exists|i: int, j: int|
        0 <= i < roles.len() && 0 <= j < roles[i].capabilities@.len() && grant_covers(
            #[trigger] roles[i].capabilities@[j],
            repo,
            required,
        )
}

/// Check whether any of the roles grants the capability on the repository.
pub fn check_grants(roles: &[RoleRecord], repo: &str, required: Capability) -> (r: Result<
    (),
    DepotError,
>)
    ensures
        r is Ok <==> granted(roles@, repo@, required),
        r matches Err(e) ==> e.deep_view() == DepotErrorView::Forbidden("access denied"@),
{
    let mut i: usize = 0;
    while i < roles.len()
        invariant
            i <= roles@.len(),
            forall|a: int, b: int|
                0 <= a < i && 0 <= b < roles@[a].capabilities@.len() ==> !grant_covers(
                    #[trigger] roles@[a].capabilities@[b],
                    repo@,
                    required,
                ),
        decreases roles@.len() - i,
    {
        let grants = &roles[i].capabilities;
        let mut j: usize = 0;
        while j < grants.len()
            invariant
                i < roles@.len(),
                *grants == roles@[i as int].capabilities,
                j <= grants@.len(),
                forall|b: int|
                    0 <= b < j ==> !grant_covers(#[trigger] grants@[b], repo@, required),
            decreases grants@.len() - j,
        {
            let g = &grants[j];
            if g.capability == required && (same_text(g.repo.as_str(), "*") || same_text(
                g.repo.as_str(),
                repo,
            )) {
                assert(grant_covers(
                    roles@[i as int].capabilities@[j as int],
                    repo@,
                    required,
                ));
                return Ok(());
            }
            j = j + 1;
        }
        i = i + 1;
    }
    Err(DepotError::Forbidden("access denied".to_string()))
}

/// A grant on `*` is a grant on every repository.
pub proof fn law_star_grants_everywhere(
    roles: Seq<RoleRecord>,
    i: int,
    j: int,
    repo: Seq<char>,
)
    requires
        0 <= i < roles.len(),
        0 <= j < roles[i].capabilities@.len(),
        roles[i].capabilities@[j].repo@ == "*"@,
    ensures
        granted(roles, repo, roles[i].capabilities@[j].capability),
{
    assert(grant_covers(
        roles[i].capabilities@[j],
        repo,
        roles[i].capabilities@[j].capability,
    ));
}

/// More roles never take a permission away.
pub proof fn law_more_roles_grant_no_less(
    roles: Seq<RoleRecord>,
    more: Seq<RoleRecord>,
    repo: Seq<char>,
    required: Capability,
)
    requires
        granted(roles, repo, required),
    ensures
        granted(roles + more, repo, required),
{
    let (i, j) = choose|i: int, j: int|
        0 <= i < roles.len() && 0 <= j < roles[i].capabilities@.len() && grant_covers(
            #[trigger] roles[i].capabilities@[j],
            repo,
            required,
        );
    assert((roles + more)[i] == roles[i]);
    assert(grant_covers((roles + more)[i].capabilities@[j], repo, required));
}

/// The head of an HTTP answer: its status, and the challenge in its
/// `WWW-Authenticate` header, if it has one.
#[derive(Debug, PartialEq, Eq)]
pub struct Reply {
    pub status: u16,
    pub www_authenticate: Option<String>,
}

/// The contents of a [`Reply`].
#[verifier::ext_equal]
pub struct ReplyView {
    pub status: u16,
    pub www_authenticate: Option<Seq<char>>,
}

impl DeepView for Reply {
    type V = ReplyView;

    open spec fn deep_view(&self) -> ReplyView {
        ReplyView { status: self.status, www_authenticate: self.www_authenticate.deep_view() }
    }
}

/// The answer to an unauthorized request.
pub open spec fn unauthorized(suppress: bool) -> ReplyView {
    ReplyView {
        status: 401,
        www_authenticate: if suppress {
            None
        } else {
            Some("Basic realm=\"Artifact Depot\""@)
        },
    }
}

/// The answer to an unauthorized request: with a Basic challenge, unless it is
/// suppressed.
pub fn unauthorized_response(suppress_www_authenticate: bool) -> (r: Reply)
    ensures
        r.deep_view() == unauthorized(suppress_www_authenticate),
{
    if suppress_www_authenticate {
        Reply { status: 401, www_authenticate: None }
    } else {
        Reply {
            status: 401,
            www_authenticate: Some("Basic realm=\"Artifact Depot\"".to_string()),
        }
    }
}

/// The status that an error is answered with.
pub open spec fn status_of(e: DepotErrorView) -> u16 {
    match e {
        DepotErrorView::NotFound(_) => 404,
        DepotErrorView::Conflict(_) => 409,
        DepotErrorView::Forbidden(_) => 403,
        DepotErrorView::BadRequest(_) => 400,
        DepotErrorView::DataIntegrity(_) => 500,
        DepotErrorView::Internal(_) => 500,
    }
}

/// The answer to an error.
pub fn error_response(err: &DepotError) -> (r: Reply)
    ensures
        r.deep_view() == (ReplyView {
            status: status_of(err.deep_view()),
            www_authenticate: None,
        }),
{
    let status: u16 = match err {
        DepotError::NotFound(_) => 404,
        DepotError::Conflict(_) => 409,
        DepotError::Forbidden(_) => 403,
        DepotError::BadRequest(_) => 400,
        DepotError::DataIntegrity(_) => 500,
        DepotError::Internal(_) => 500,
    };
    Reply { status, www_authenticate: None }
}

/// The answer to a failed permission check: a forbidden request of an anonymous
/// caller is challenged for credentials, anything else gets its usual answer.
pub fn map_permission_error(err: DepotError, username: &str) -> (r: Reply)
    ensures
        r.deep_view() == (if err.deep_view() is Forbidden && username@ == "anonymous"@ {
            unauthorized(false)
        } else {
            ReplyView { status: status_of(err.deep_view()), www_authenticate: None }
        }),
{
    let forbidden = match &err {
        DepotError::Forbidden(_) => true,
        _ => false,
    };
    if forbidden && same_text(username, "anonymous") {
        return unauthorized_response(false);
    }
    error_response(&err)
}

} // verus!
