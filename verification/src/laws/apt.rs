//! What making keys for, and signing, APT repositories promise.
use crate::apt::signing::{
    can_sign_with, dash_escaped, failure, files_of, key_in, key_request, pair_of, release_signed,
    KeyFailure, KeyRequest, KeyTexts, SignFailure, SignedText,
};
use crate::error::DepotErrorView;
use crate::laws::text::{between, law_infix_stands_between, law_prefix_is_followed_by_the_rest};
use crate::text::has_prefix;
use vstd::prelude::*;

verus! {

/// A key is asked for as RSA of 2048 bits that certifies and signs, prefers AES with
/// 256 bits, and is named after its repository.
pub proof fn law_key_is_named_after_its_repository(repo: &str, r: KeyRequest)
    requires
        call_ensures(key_request, (repo,), r),
    ensures
        r.rsa_bits == 2048,
        r.can_certify && r.can_sign,
        r.cipher == 9,
        r.user_id@ == "Artifact Depot <depot@"@ + repo@ + ">"@,
{
    let v = r.deep_view();
    assert(v.rsa_bits == 2048);
}

/// A pair of keys comes of a key of which both halves could be armored; else the
/// first step that failed is told, with its message.
pub proof fn law_pair_has_both_halves(a: String, b: String, m: String, other: Result<String, String>)
    ensures
        pair_of(Ok(KeyTexts { private: Ok(a), public: Ok(b) })) == Ok::<
            (Seq<char>, Seq<char>),
            DepotErrorView,
        >((a@, b@)),
        pair_of(Ok(KeyTexts { private: Err(m), public: other })) == Err::<
            (Seq<char>, Seq<char>),
            DepotErrorView,
        >(DepotErrorView::BadRequest("failed to armor private key: "@ + m@)),
        pair_of(Ok(KeyTexts { private: Ok(a), public: Err(m) })) == Err::<
            (Seq<char>, Seq<char>),
            DepotErrorView,
        >(DepotErrorView::BadRequest("failed to armor public key: "@ + m@)),
        pair_of(Err(KeyFailure::Generate(m))) == Err::<(Seq<char>, Seq<char>), DepotErrorView>(
            DepotErrorView::BadRequest("failed to generate key: "@ + m@),
        ),
        pair_of(Err(KeyFailure::Params(m))) == Err::<(Seq<char>, Seq<char>), DepotErrorView>(
            DepotErrorView::BadRequest("failed to build key params: "@ + m@),
        ),
{
    reveal_strlit("failed to ");
    reveal_strlit(": ");
    reveal_strlit("armor private key");
    reveal_strlit("failed to armor private key: ");
    reveal_strlit("armor public key");
    reveal_strlit("failed to armor public key: ");
    reveal_strlit("generate key");
    reveal_strlit("failed to generate key: ");
    reveal_strlit("build key params");
    reveal_strlit("failed to build key params: ");
    assert("failed to "@ + "armor private key"@ + ": "@ =~= "failed to armor private key: "@);
    assert("failed to "@ + "armor public key"@ + ": "@ =~= "failed to armor public key: "@);
    assert("failed to "@ + "generate key"@ + ": "@ =~= "failed to generate key: "@);
    assert("failed to "@ + "build key params"@ + ": "@ =~= "failed to build key params: "@);
}

/// The release files are the armored message and signature; else the first step that
/// failed is told, with its message; without a signature its file is empty.
pub proof fn law_release_files_are_message_and_signature(
    a: String,
    b: String,
    m: String,
    other: Option<Result<String, String>>,
)
    ensures
        files_of(Ok(SignedText { message: Ok(a), signature: Some(Ok(b)) })) == Ok::<
            (Seq<char>, Seq<char>),
            DepotErrorView,
        >((a@, b@)),
        files_of(Ok(SignedText { message: Ok(a), signature: None })) == Ok::<
            (Seq<char>, Seq<char>),
            DepotErrorView,
        >((a@, Seq::<char>::empty())),
        files_of(Ok(SignedText { message: Err(m), signature: other })) == Err::<
            (Seq<char>, Seq<char>),
            DepotErrorView,
        >(DepotErrorView::BadRequest("failed to armor clearsigned message: "@ + m@)),
        files_of(Ok(SignedText { message: Ok(a), signature: Some(Err(m)) })) == Err::<
            (Seq<char>, Seq<char>),
            DepotErrorView,
        >(DepotErrorView::BadRequest("failed to armor detached signature: "@ + m@)),
        files_of(Err(SignFailure::Key(m))) == Err::<(Seq<char>, Seq<char>), DepotErrorView>(
            DepotErrorView::BadRequest("failed to parse signing key: "@ + m@),
        ),
        files_of(Err(SignFailure::Sign(m))) == Err::<(Seq<char>, Seq<char>), DepotErrorView>(
            DepotErrorView::BadRequest("failed to create clearsigned message: "@ + m@),
        ),
{
    reveal_strlit("failed to ");
    reveal_strlit(": ");
    reveal_strlit("armor clearsigned message");
    reveal_strlit("failed to armor clearsigned message: ");
    reveal_strlit("armor detached signature");
    reveal_strlit("failed to armor detached signature: ");
    reveal_strlit("parse signing key");
    reveal_strlit("failed to parse signing key: ");
    reveal_strlit("create clearsigned message");
    reveal_strlit("failed to create clearsigned message: ");
    assert("failed to "@ + "armor clearsigned message"@ + ": "@
        =~= "failed to armor clearsigned message: "@);
    assert("failed to "@ + "armor detached signature"@ + ": "@
        =~= "failed to armor detached signature: "@);
    assert("failed to "@ + "parse signing key"@ + ": "@ =~= "failed to parse signing key: "@);
    assert("failed to "@ + "create clearsigned message"@ + ": "@
        =~= "failed to create clearsigned message: "@);
}

/// A line that begins with a dash is escaped by a dash and a blank in front of it,
/// any other line stands as it is; a text is escaped line by line.
pub proof fn law_lines_are_escaped_one_by_one(line: Seq<char>, a: Seq<char>, b: Seq<char>)
    requires
        !line.contains('\n'),
    ensures
        line.len() > 0 && line[0] == '-' ==> dash_escaped(line) == "- "@ + line,
        line.len() == 0 || line[0] != '-' ==> dash_escaped(line) == line,
        dash_escaped(a + seq!['\n'] + b) == dash_escaped(a) + seq!['\n'] + dash_escaped(b),
{
    lemma_line(line);
    lemma_lines(a, b);
}

/// How a single line is escaped.
proof fn lemma_line(line: Seq<char>)
    requires
        !line.contains('\n'),
    ensures
        line.len() > 0 && line[0] == '-' ==> dash_escaped(line) == "- "@ + line,
        line.len() == 0 || line[0] != '-' ==> dash_escaped(line) == line,
    decreases line.len(),
{
    if line.len() > 0 {
        let rest = line.drop_last();
        assert(!rest.contains('\n')) by {
            if rest.contains('\n') {
                let i = choose|i: int| 0 <= i < rest.len() && rest[i] == '\n';
                assert(line[i] == '\n');
            }
        }
        lemma_line(rest);
        if line.len() > 1 {
            assert(line.contains(line[line.len() - 2]));
            assert(rest[0] == line[0]);
            if line[0] == '-' {
                assert(("- "@ + rest).push(line.last()) =~= "- "@ + line);
            } else {
                assert(rest.push(line.last()) =~= line);
            }
        } else {
            assert(dash_escaped(rest) =~= Seq::<char>::empty());
            assert(seq![line.last()] =~= line);
            if line[0] == '-' {
                assert(Seq::<char>::empty() + "- "@ + line =~= "- "@ + line);
            } else {
                assert(Seq::<char>::empty().push(line.last()) =~= line);
            }
        }
    }
}

/// A text is escaped line by line.
proof fn lemma_lines(a: Seq<char>, b: Seq<char>)
    ensures
        dash_escaped(a + seq!['\n'] + b) == dash_escaped(a) + seq!['\n'] + dash_escaped(b),
    decreases b.len(),
{
    let text = a + seq!['\n'] + b;
    let head = dash_escaped(a) + seq!['\n'];
    if b.len() == 0 {
        assert(text =~= a + seq!['\n']);
        assert(text.drop_last() =~= a);
        assert(text.last() == '\n');
        assert(dash_escaped(a).push('\n') =~= head);
        assert(head + dash_escaped(b) =~= head);
    } else {
        lemma_lines(a, b.drop_last());
        assert(text.drop_last() =~= a + seq!['\n'] + b.drop_last());
        assert(text.last() == b.last());
        let c = b.last();
        let inner = dash_escaped(b.drop_last());
        if b.len() == 1 {
            assert(text[text.len() - 2] == '\n');
        } else {
            assert(text[text.len() - 2] == b[b.len() - 2]);
        }
        assert(head + inner + "- "@ + seq![c] =~= head + (inner + "- "@ + seq![c]));
        assert((head + inner).push(c) =~= head + inner.push(c));
    }
}

/// A key signs unless it is none, or its order has less than eight bits.
pub proof fn law_key_signs_unless_its_order_is_short(armor: Seq<char>)
    ensures
        key_in(armor) is Err ==> !can_sign_with(armor),
        key_in(armor) == Ok::<Option<usize>, Seq<char>>(None) ==> can_sign_with(armor),
        forall|bits: usize| #[trigger]
            key_in(armor) == Ok::<Option<usize>, Seq<char>>(Some(bits)) ==> (can_sign_with(armor)
                <==> bits >= 8),
{
}

/// A signed release holds the release text, escaped, between the header of a signed
/// message and the header of its signature; the detached signature stands alone.
pub proof fn law_signed_release_holds_the_text(
    message: Seq<char>,
    signature: Seq<char>,
    armor: Seq<char>,
    text: Seq<char>,
)
    requires
        release_signed(Ok((message, signature)), armor, text),
    ensures
        can_sign_with(armor),
        exists|rest: Seq<char>|
            message == #[trigger] ("-----BEGIN PGP SIGNED MESSAGE-----\n"@ + rest),
        exists|head: Seq<char>, tail: Seq<char>| #[trigger]
            between(
                message,
                head,
                "\n\n"@ + dash_escaped(text) + "\n-----BEGIN PGP SIGNATURE-----\n"@,
                tail,
            ),
        exists|rest: Seq<char>|
            signature == #[trigger] ("-----BEGIN PGP SIGNATURE-----\n"@ + rest),
{
    law_prefix_is_followed_by_the_rest(message, "-----BEGIN PGP SIGNED MESSAGE-----\n"@);
    law_prefix_is_followed_by_the_rest(signature, "-----BEGIN PGP SIGNATURE-----\n"@);
    law_infix_stands_between(
        message,
        "\n\n"@ + dash_escaped(text) + "\n-----BEGIN PGP SIGNATURE-----\n"@,
    );
}

/// What is no key signs nothing: the failure is told with its message.
pub proof fn law_no_key_signs_nothing(
    r: Result<(Seq<char>, Seq<char>), DepotErrorView>,
    armor: Seq<char>,
    text: Seq<char>,
    m: Seq<char>,
)
    requires
        release_signed(r, armor, text),
        key_in(armor) == Err::<Option<usize>, Seq<char>>(m),
    ensures
        r == Err::<(Seq<char>, Seq<char>), DepotErrorView>(
            DepotErrorView::BadRequest("failed to parse signing key: "@ + m),
        ),
{
    reveal_strlit("failed to ");
    reveal_strlit(": ");
    reveal_strlit("parse signing key");
    reveal_strlit("failed to parse signing key: ");
    assert("failed to "@ + "parse signing key"@ + ": "@ =~= "failed to parse signing key: "@);
}

/// Where a key that can sign signs nothing, the step that failed is told.
pub proof fn law_failed_step_is_told(e: DepotErrorView, armor: Seq<char>, text: Seq<char>)
    requires
        release_signed(Err(e), armor, text),
        can_sign_with(armor),
    ensures
        e matches DepotErrorView::BadRequest(m) && (has_prefix(
            m,
            "failed to create clearsigned message: "@,
        ) || has_prefix(m, "failed to armor clearsigned message: "@) || has_prefix(
            m,
            "failed to armor detached signature: "@,
        )),
{
    reveal_strlit("failed to ");
    reveal_strlit(": ");
    reveal_strlit("armor clearsigned message");
    reveal_strlit("failed to armor clearsigned message: ");
    reveal_strlit("armor detached signature");
    reveal_strlit("failed to armor detached signature: ");
    reveal_strlit("create clearsigned message");
    reveal_strlit("failed to create clearsigned message: ");
    assert("failed to "@ + "armor clearsigned message"@ + ": "@
        =~= "failed to armor clearsigned message: "@);
    assert("failed to "@ + "armor detached signature"@ + ": "@
        =~= "failed to armor detached signature: "@);
    assert("failed to "@ + "create clearsigned message"@ + ": "@
        =~= "failed to create clearsigned message: "@);
    assert(e is BadRequest);
    let m = e->BadRequest_0;
    if exists|x: Seq<char>| e == #[trigger] failure("create clearsigned message"@, x) {
        let x = choose|x: Seq<char>| e == #[trigger] failure("create clearsigned message"@, x);
        assert(m == "failed to create clearsigned message: "@ + x);
        law_prefix_is_followed_by_the_rest(m, "failed to create clearsigned message: "@);
    } else if exists|x: Seq<char>| e == #[trigger] failure("armor clearsigned message"@, x) {
        let x = choose|x: Seq<char>| e == #[trigger] failure("armor clearsigned message"@, x);
        assert(m == "failed to armor clearsigned message: "@ + x);
        law_prefix_is_followed_by_the_rest(m, "failed to armor clearsigned message: "@);
    } else {
        let x = choose|x: Seq<char>| e == #[trigger] failure("armor detached signature"@, x);
        assert(m == "failed to armor detached signature: "@ + x);
        law_prefix_is_followed_by_the_rest(m, "failed to armor detached signature: "@);
    }
}

} // verus!
