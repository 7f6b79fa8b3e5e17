//! What is read of JSON documents and docker manifests.
use crate::docker::manifest::{
    all_refs, classified, config_list, config_of, digest_of, listed_digests, step_after,
    DateStepView,
};
use crate::docker::paths::{blob_ref_path, manifest_path, tag_path};
use crate::json::{is_member, items_member, json_view, member, string_member, Json, JsonView};
use crate::laws::seqs::{is_first, law_first_that_passes};
use crate::seqs::{lemma_filter_map_contains, lemma_filter_map_step};
use vstd::prelude::*;

verus! {

/// A document is an object with a member of this name and value; of several members
/// of one name the first counts.
pub open spec fn has(j: JsonView, name: Seq<char>, v: JsonView) -> bool {
    j matches JsonView::Object(ms) && exists|i: int|
        0 <= i < ms.len() && #[trigger] ms[i] == (name, v) && forall|k: int|
            0 <= k < i ==> (#[trigger] ms[k]).0 != name
}

/// A member is read exactly where the document has it.
pub proof fn law_member_is_read(j: JsonView, name: Seq<char>)
    ensures
        forall|v: JsonView| #[trigger] has(j, name, v) <==> member(j, name) == Some(v),
        forall|s: Seq<char>| #[trigger] has_text(j, name, s) <==> string_member(j, name) == Some(s),
        forall|es: Seq<JsonView>| #[trigger]
            has_items(j, name, es) <==> items_member(j, name) == Some(es),
{
    if let JsonView::Object(ms) = j {
        let p = is_member(name);
        law_first_that_passes(ms, p);
        assert forall|v: JsonView| #[trigger] has(j, name, v) <==> member(j, name) == Some(v) by {
            if has(j, name, v) {
                let i = choose|i: int|
                    0 <= i < ms.len() && #[trigger] ms[i] == (name, v) && forall|k: int|
                        0 <= k < i ==> (#[trigger] ms[k]).0 != name;
                assert forall|k: int| 0 <= k < i implies !p(#[trigger] ms[k]) by {
                    assert(ms[k].0 != name);
                }
                assert(is_first(ms, p, i));
            }
            if member(j, name) == Some(v) {
                let i = choose|i: int| #[trigger] is_first(ms, p, i);
                assert(ms[i] == (name, v));
                assert forall|k: int| 0 <= k < i implies (#[trigger] ms[k]).0 != name by {
                    assert(!p(ms[k]));
                }
            }
        }
    }
    assert forall|s: Seq<char>| #[trigger] has_text(j, name, s) <==> string_member(j, name) == Some(
        s,
    ) by {
        assert(has(j, name, JsonView::Text(s)) <==> member(j, name) == Some(JsonView::Text(s)));
    }
    assert forall|es: Seq<JsonView>| #[trigger]
        has_items(j, name, es) <==> items_member(j, name) == Some(es) by {
        assert(has(j, name, JsonView::Array(es)) <==> member(j, name) == Some(JsonView::Array(es)));
    }
}

/// A document has a member of this name that is a text.
pub open spec fn has_text(j: JsonView, name: Seq<char>, s: Seq<char>) -> bool {
    has(j, name, JsonView::Text(s))
}

/// A document has a member of this name that is an array.
pub open spec fn has_items(j: JsonView, name: Seq<char>, es: Seq<JsonView>) -> bool {
    has(j, name, JsonView::Array(es))
}

/// A document lists a digest under a name: the member is an array, and one of its
/// items has that digest.
pub open spec fn lists(j: JsonView, name: Seq<char>, d: Seq<char>) -> bool {
    exists|es: Seq<JsonView>, k: int|
        has_items(j, name, es) && 0 <= k < es.len() && has_text(#[trigger] es[k], "digest"@, d)
}

/// A document has a config with a digest.
pub open spec fn has_config(j: JsonView, d: Seq<char>) -> bool {
    exists|c: JsonView| #[trigger] has(j, "config"@, c) && has_text(c, "digest"@, d)
}

/// The digests listed under a name are those that its items have.
pub proof fn law_listed_digests(j: JsonView, name: Seq<char>, d: Seq<char>)
    ensures
        listed_digests(j, name).contains(d) <==> lists(j, name, d),
{
    law_member_is_read(j, name);
    match items_member(j, name) {
        Some(es) => {
            let f = digest_of();
            lemma_filter_map_contains(es, f, d);
            assert(has_items(j, name, es));
            if listed_digests(j, name).contains(d) {
                let k = choose|k: int| 0 <= k < es.len() && #[trigger] f(es[k]) == Some(d);
                law_member_is_read(es[k], "digest"@);
                assert(has_text(es[k], "digest"@, d));
            }
            if lists(j, name, d) {
                let (fs, k) = choose|fs: Seq<JsonView>, k: int|
                    has_items(j, name, fs) && 0 <= k < fs.len() && has_text(#[trigger] fs[k], "digest"@, d);
                assert(items_member(j, name) == Some(fs));
                law_member_is_read(es[k], "digest"@);
                assert(f(es[k]) == Some(d));
            }
        },
        None => {
            if lists(j, name, d) {
                let (fs, k) = choose|fs: Seq<JsonView>, k: int|
                    has_items(j, name, fs) && 0 <= k < fs.len() && has_text(#[trigger] fs[k], "digest"@, d);
                assert(items_member(j, name) == Some(fs));
            }
        },
    }
}

/// The config of an image is the digest of its config member.
pub proof fn law_config_digest(j: JsonView, d: Seq<char>)
    ensures
        config_of(j) == Some(d) <==> has_config(j, d),
        config_list(j).contains(d) <==> has_config(j, d),
        config_list(j).len() <= 1,
{
    law_member_is_read(j, "config"@);
    if config_of(j) == Some(d) {
        let c = member(j, "config"@)->Some_0;
        law_member_is_read(c, "digest"@);
        assert(has(j, "config"@, c));
        assert(has_text(c, "digest"@, d));
    }
    if has_config(j, d) {
        let c = choose|c: JsonView| #[trigger]
            has(j, "config"@, c) && has_text(c, "digest"@, d);
        law_member_is_read(c, "digest"@);
        assert(member(j, "config"@) == Some(c));
        assert(config_list(j)[0] == d);
    }
}

/// A manifest refers to its config, its layers and its children, and to nothing
/// else.
pub proof fn law_manifest_refers_to_its_parts(j: JsonView, d: Seq<char>)
    ensures
        all_refs(j).contains(d) <==> has_config(j, d) || lists(j, "layers"@, d) || lists(
            j,
            "manifests"@,
            d,
        ),
{
    law_config_digest(j, d);
    law_listed_digests(j, "layers"@, d);
    law_listed_digests(j, "manifests"@, d);
    let a = config_list(j);
    let b = listed_digests(j, "layers"@);
    let c = listed_digests(j, "manifests"@);
    lemma_sum_contains(a, b, d);
    lemma_sum_contains(a + b, c, d);
}

/// An item of two sequences together is an item of one of them.
pub proof fn lemma_sum_contains<T>(a: Seq<T>, b: Seq<T>, x: T)
    ensures
        (a + b).contains(x) <==> a.contains(x) || b.contains(x),
{
    if a.contains(x) {
        let i = choose|i: int| 0 <= i < a.len() && a[i] == x;
        assert((a + b)[i] == x);
    }
    if b.contains(x) {
        let i = choose|i: int| 0 <= i < b.len() && b[i] == x;
        assert((a + b)[a.len() + i] == x);
    }
    if (a + b).contains(x) {
        let i = choose|i: int| 0 <= i < (a + b).len() && (a + b)[i] == x;
        if i < a.len() {
            assert(a[i] == x);
        } else {
            assert(b[i - a.len()] == x);
        }
    }
}

/// A document with an array of manifests is a list, whose children are the digests
/// that it lists and which has no blobs; any other is an image, whose blobs are its
/// config and its layers and which has no children.
pub proof fn law_list_has_children_and_image_has_blobs(j: JsonView, d: Seq<char>)
    ensures
        ({
            let is_list = exists|es: Seq<JsonView>| #[trigger]
                has_items(j, "manifests"@, es);
            &&& is_list ==> classified(j).1.len() == 0 && (classified(j).0.contains(d) <==> lists(
                j,
                "manifests"@,
                d,
            ))
            &&& !is_list ==> classified(j).0.len() == 0 && (classified(j).1.contains(d)
                <==> has_config(j, d) || lists(j, "layers"@, d))
        }),
{
    law_member_is_read(j, "manifests"@);
    law_listed_digests(j, "manifests"@, d);
    law_listed_digests(j, "layers"@, d);
    law_config_digest(j, d);
    lemma_sum_contains(config_list(j), listed_digests(j, "layers"@), d);
    if items_member(j, "manifests"@) is Some {
        let es = items_member(j, "manifests"@)->Some_0;
        assert(has_items(j, "manifests"@, es));
    } else {
        if exists|es: Seq<JsonView>| #[trigger] has_items(j, "manifests"@, es) {
            let es = choose|es: Seq<JsonView>| #[trigger] has_items(j, "manifests"@, es);
            assert(items_member(j, "manifests"@) == Some(es));
        }
    }
}

/// The blobs of an image are its config, then its layers in their order; the
/// children of a list are in their order.
pub proof fn law_parts_keep_their_order(
    j: JsonView,
    name: Seq<char>,
    es: Seq<JsonView>,
    ds: Seq<Seq<char>>,
)
    requires
        has_items(j, name, es),
        es.len() == ds.len(),
        forall|i: int|
            0 <= i < es.len() ==> has_text(#[trigger] es[i], "digest"@, ds[i]),
    ensures
        listed_digests(j, name) == ds,
        name == "manifests"@ ==> classified(j).0 == ds,
        forall|c: Seq<char>|
            name == "layers"@ && items_member(j, "manifests"@) is None && #[trigger] has_config(
                j,
                c,
            ) ==> classified(j).1 == seq![c] + ds,
{
    law_member_is_read(j, name);
    assert(items_member(j, name) == Some(es));
    let f = digest_of();
    lemma_all_digests(es, ds, es.len() as int);
    assert(es.take(es.len() as int) =~= es);
    assert(ds.take(es.len() as int) =~= ds);
    assert forall|c: Seq<char>|
        name == "layers"@ && items_member(j, "manifests"@) is None && #[trigger] has_config(
            j,
            c,
        ) implies classified(j).1 == seq![c] + ds by {
        law_config_digest(j, c);
    }
}

/// The digests of the first items.
proof fn lemma_all_digests(es: Seq<JsonView>, ds: Seq<Seq<char>>, n: int)
    requires
        0 <= n <= es.len(),
        es.len() == ds.len(),
        forall|i: int|
            0 <= i < es.len() ==> has_text(#[trigger] es[i], "digest"@, ds[i]),
    ensures
        es.take(n).filter_map(digest_of()) == ds.take(n),
    decreases n,
{
    if n > 0 {
        lemma_all_digests(es, ds, n - 1);
        lemma_filter_map_step(es, digest_of(), n - 1);
        law_member_is_read(es[n - 1], "digest"@);
        assert(has_text(es[n - 1], "digest"@, ds[n - 1]));
        assert(ds.take(n) =~= ds.take(n - 1).push(ds[n - 1]));
    } else {
        assert(es.take(0).filter_map(digest_of()) =~= ds.take(0));
    }
}

/// The build date of an image is looked up in its config; that of a list in its
/// first child, one level down and no further.
pub proof fn law_build_date_is_one_level_down(j: JsonView, es: Seq<JsonView>, d: Seq<char>)
    ensures
        has_items(j, "manifests"@, es) && es.len() > 0 && has_text(es[0], "digest"@, d) ==> step_after(j, false) == DateStepView::Manifest(d),
        has_config(j, d) ==> step_after(j, true) == DateStepView::Config(d),
        has_config(j, d) && items_member(j, "manifests"@) is None ==> step_after(j, false)
            == DateStepView::Config(d),
        !(step_after(j, true) is Manifest),
        config_of(j) is None ==> step_after(j, true) is Unknown,
{
    law_member_is_read(j, "manifests"@);
    if has_items(j, "manifests"@, es) && es.len() > 0 {
        law_member_is_read(es[0], "digest"@);
        assert(items_member(j, "manifests"@) == Some(es));
    }
    law_config_digest(j, d);
}

/// Tags, manifests and layer references have paths of their own, under the image
/// but for the layers.
pub proof fn law_paths(image: Seq<char>, name: Seq<char>)
    ensures
        tag_path(Some(image), name) == image + "/_tags/"@ + name,
        tag_path(None, name) == "_tags/"@ + name,
        manifest_path(Some(image), name) == image + "/_manifests/"@ + name,
        manifest_path(None, name) == "_manifests/"@ + name,
        blob_ref_path(name) == "_blobs/"@ + name,
{
    reveal_strlit("/_tags/");
    reveal_strlit("_tags/");
    reveal_strlit("/_manifests/");
    reveal_strlit("_manifests/");
    reveal_strlit("/");
    assert("/_tags/"@ =~= "/"@ + "_tags/"@);
    assert("/_manifests/"@ =~= "/"@ + "_manifests/"@);
    assert(tag_path(Some(image), name) =~= image + "/_tags/"@ + name);
    assert(manifest_path(Some(image), name) =~= image + "/_manifests/"@ + name);
}

/// A document is read part by part: the items of an array and the members of an
/// object keep their places.
pub proof fn law_documents_keep_their_parts(
    items: Vec<Json>,
    members: Vec<(String, Json)>,
    i: int,
)
    ensures
        json_view(Json::Array(items)) matches JsonView::Array(es) && es.len() == items@.len() && (0
            <= i < items@.len() ==> es[i] == json_view(items@[i])),
        json_view(Json::Object(members)) matches JsonView::Object(ms) && ms.len() == members@.len()
            && (0 <= i < members@.len() ==> ms[i] == (members@[i].0@, json_view(members@[i].1))),
{
}

/// Plain values are read as they are.
pub proof fn law_plain_values_are_read_as_they_are(s: String, b: bool)
    ensures
        json_view(Json::Text(s)) == JsonView::Text(s@),
        json_view(Json::Number(s)) == JsonView::Number(s@),
        json_view(Json::Bool(b)) == JsonView::Bool(b),
        json_view(Json::Null) is Null,
{
}

} // verus!
