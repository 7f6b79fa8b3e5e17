//! What authenticating callers and answering refusals promises.
use crate::auth::{base64_decoded, basic_auth, map_permission_error, status_of, unauthorized, Reply};
use crate::error::{DepotError, DepotErrorView};
use crate::laws::text::{
    law_decoding_inverts_encoding, law_prefix_is_followed_by_the_rest, law_split_at_the_first,
};
use vstd::prelude::*;
use vstd::utf8::encode_utf8;

verus! {

/// The credentials of a Basic header are the name and password that were encoded:
/// the name ends at the first colon, the password may hold others.
pub proof fn law_basic_header_carries_credentials(
    encoded: Seq<char>,
    user: Seq<char>,
    password: Seq<char>,
)
    requires
        !user.contains(':'),
        base64_decoded(encoded) == Some(encode_utf8(user + seq![':'] + password)),
    ensures
        basic_auth("Basic "@ + encoded) == Some((user, password)),
{
    law_prefix_is_followed_by_the_rest("Basic "@ + encoded, "Basic "@);
    law_decoding_inverts_encoding(
        user + seq![':'] + password,
        encode_utf8(user + seq![':'] + password),
    );
    law_split_at_the_first(user, ':', password);
}

/// A header that does not begin with "Basic ", or holds no base64, or no colon,
/// carries no credentials.
pub proof fn law_other_headers_carry_none(header: Seq<char>, encoded: Seq<char>, text: Seq<char>)
    requires
        !text.contains(':'),
    ensures
        (forall|rest: Seq<char>| header != #[trigger] ("Basic "@ + rest)) ==> basic_auth(
            header,
        ) is None,
        base64_decoded(encoded) is None ==> basic_auth("Basic "@ + encoded) is None,
        base64_decoded(encoded) == Some(encode_utf8(text)) ==> basic_auth(
            "Basic "@ + encoded,
        ) is None,
{
    law_prefix_is_followed_by_the_rest(header, "Basic "@);
    law_prefix_is_followed_by_the_rest("Basic "@ + encoded, "Basic "@);
    law_decoding_inverts_encoding(text, encode_utf8(text));
    law_split_at_the_first(text, ':', text);
}

/// Every error is answered with the status of its kind.
pub proof fn law_errors_have_their_status(m: Seq<char>)
    ensures
        status_of(DepotErrorView::NotFound(m)) == 404,
        status_of(DepotErrorView::Conflict(m)) == 409,
        status_of(DepotErrorView::Forbidden(m)) == 403,
        status_of(DepotErrorView::BadRequest(m)) == 400,
        status_of(DepotErrorView::DataIntegrity(m)) == 500,
        status_of(DepotErrorView::Internal(m)) == 500,
{
}

/// An unauthorized request is challenged unless the challenge is suppressed.
pub proof fn law_unauthorized_is_challenged()
    ensures
        unauthorized(true).status == 401,
        unauthorized(false).status == 401,
        unauthorized(true).www_authenticate is None,
        unauthorized(false).www_authenticate == Some("Basic realm=\"Artifact Depot\""@),
{
}

/// Of failed permission checks only a forbidden request of an anonymous caller is
/// challenged; any other is answered by its kind.
pub proof fn law_only_anonymous_callers_are_challenged(err: DepotError, user: &str, r: Reply)
    requires
        call_ensures(map_permission_error, (err, user), r),
    ensures
        user@ == "anonymous"@ && err is Forbidden ==> r.status == 401 && r.www_authenticate is Some,
        user@ != "anonymous"@ && err is Forbidden ==> r.status == 403 && r.www_authenticate is None,
        err is NotFound ==> r.status == 404 && r.www_authenticate is None,
        err is Conflict ==> r.status == 409 && r.www_authenticate is None,
        err is BadRequest ==> r.status == 400 && r.www_authenticate is None,
        err is DataIntegrity || err is Internal ==> r.status == 500 && r.www_authenticate is None,
{
    let v = r.deep_view();
    assert(v.status == r.status);
    assert(v.www_authenticate is Some <==> r.www_authenticate is Some);
}

} // verus!
