//! What collecting garbage in docker repositories promises.
use crate::docker::manifest::all_refs;
use crate::gc::bloom::{header_size, holds, with_items};
use crate::gc::docker::{
    blocks, child_map, children, dead_blob, dead_layers, dead_manifest, dead_manifest_list,
    is_blocked, is_list, is_walk, law_referenced_layer_is_kept, path_digest, reached, text_items,
    text_refs, with_record, DockerRecordsView, GcRecordView,
};
use crate::json::json_document;
use crate::laws::manifest::{has_config, law_manifest_refers_to_its_parts, lists};
use crate::laws::text::{
    between, ends_behind, law_infix_stands_between, law_prefix_is_followed_by_the_rest,
    law_text_after_a_pattern_ends_the_text, law_text_after_the_last_pattern,
};
use crate::ordered::{ascending, key1, keys_of, lemma_put, lookup};
use crate::seqs::{lemma_filter_map_contains, spread};
use crate::text::{after_last, after_prefix, has_infix, has_prefix};
use crate::time::Timestamp;
use vstd::prelude::*;
use vstd::utf8::encode_utf8;

verus! {

/// A path leads to a digest through a directory, at the top or under an image.
pub open spec fn leads_to_digest(path: Seq<char>, dir: Seq<char>, d: Seq<char>) -> bool {
    path == dir + d || exists|image: Seq<char>| path == #[trigger] (image + seq!['/'] + dir + d)
}

/// A directory ends with a slash and has no other.
pub open spec fn is_dir(dir: Seq<char>) -> bool {
    dir.len() > 0 && dir.last() == '/' && forall|i: int|
        0 <= i < dir.len() - 1 ==> #[trigger] dir[i] != '/'
}

/// The digest of a path is the one that the path leads to.
proof fn lemma_digest(path: Seq<char>, inner: Seq<char>, dir: Seq<char>, d: Seq<char>)
    requires
        is_dir(dir),
        inner == seq!['/'] + dir,
        !d.contains('/'),
    ensures
        path_digest(path, inner, dir) == Some(d) <==> leads_to_digest(path, dir, d),
{
    law_prefix_is_followed_by_the_rest(path, dir);
    law_text_after_a_pattern_ends_the_text(path, inner);
    law_infix_stands_between(path, inner);
    assert(inner.last() == '/');
    assert(inner[0] == '/');
    if leads_to_digest(path, dir, d) {
        if path == dir + d {
            if has_infix(path, inner) {
                let (a, b) = choose|a: Seq<char>, b: Seq<char>| #[trigger] between(path, a, inner, b);
                assert(path[a.len() as int] == inner[0]);
                assert(path[a.len() + inner.len() - 1] == inner.last());
                let i = a.len() as int;
                let k = a.len() + inner.len() - 1;
                assert(path[i] == '/' && path[k] == '/' && i < k);
                if i < dir.len() {
                    assert(dir[i] == '/');
                    assert(i == dir.len() - 1);
                    assert(d[k - dir.len()] == '/');
                } else {
                    assert(d[i - dir.len()] == '/');
                }
            }
            assert(after_prefix(dir + d, dir) == Some(d));
        } else {
            let image = choose|image: Seq<char>| path == #[trigger] (image + seq!['/'] + dir + d);
            assert(image + seq!['/'] + dir + d =~= image + inner + d);
            law_text_after_the_last_pattern(image, inner, d);
        }
    }
    if path_digest(path, inner, dir) == Some(d) {
        if let Some(b) = after_last(path, inner) {
            assert(ends_behind(path, inner, d));
            let a = choose|a: Seq<char>| #[trigger] between(path, a, inner, d);
            assert(a + inner + d =~= a + seq!['/'] + dir + d);
            assert(path == a + seq!['/'] + dir + d);
        } else {
            let rest = choose|rest: Seq<char>| path == #[trigger] (dir + rest);
            assert(after_prefix(dir + rest, dir) == Some(rest));
        }
    }
}

/// The directory of manifests.
proof fn lemma_manifest_dir()
    ensures
        is_dir("_manifests/"@),
        "/_manifests/"@ == seq!['/'] + "_manifests/"@,
        is_dir("_blobs/"@),
        "/_blobs/"@ == seq!['/'] + "_blobs/"@,
{
    reveal_strlit("_manifests/");
    reveal_strlit("/_manifests/");
    reveal_strlit("_blobs/");
    reveal_strlit("/_blobs/");
    assert("/_manifests/"@ =~= seq!['/'] + "_manifests/"@);
    assert("/_blobs/"@ =~= seq!['/'] + "_blobs/"@);
}

/// The digest of a manifest's path, or of a layer reference's, is what stands behind
/// the directory, at the top or under any image.
pub proof fn law_digest_ends_the_path(path: Seq<char>, d: Seq<char>)
    requires
        !d.contains('/'),
    ensures
        path_digest(path, "/_manifests/"@, "_manifests/"@) == Some(d) <==> leads_to_digest(
            path,
            "_manifests/"@,
            d,
        ),
        path_digest(path, "/_blobs/"@, "_blobs/"@) == Some(d) <==> leads_to_digest(
            path,
            "_blobs/"@,
            d,
        ),
{
    lemma_manifest_dir();
    lemma_digest(path, "/_manifests/"@, "_manifests/"@, d);
    lemma_digest(path, "/_blobs/"@, "_blobs/"@, d);
}

/// The manifests of one digest have one text.
pub open spec fn one_text_per_digest(
    manifests: Seq<GcRecordView>,
    texts: Seq<Option<Seq<char>>>,
) -> bool {
    forall|i: int, k: int, d: Seq<char>|
        0 <= i < manifests.len() && 0 <= k < manifests.len() && #[trigger] leads_to_digest(
            manifests[i].path,
            "_manifests/"@,
            d,
        ) && #[trigger] leads_to_digest(manifests[k].path, "_manifests/"@, d) && texts[i] is Some
            && texts[k] is Some ==> texts[i] == texts[k]
}

/// A text lists a manifest among its manifests.
pub open spec fn text_lists(text: Option<Seq<char>>, c: Seq<char>) -> bool {
    text matches Some(t) && json_document(encode_utf8(t)) matches Some(j) && lists(
        j,
        "manifests"@,
        c,
    )
}

/// A list that was read stands at one digest and lists another: an OCI index, or a
/// docker manifest list.
pub open spec fn list_leads(
    manifests: Seq<GcRecordView>,
    texts: Seq<Option<Seq<char>>>,
    p: Seq<char>,
    c: Seq<char>,
) -> bool {
    exists|i: int|
        0 <= i < manifests.len() && leads_to_digest(
            (#[trigger] manifests[i]).path,
            "_manifests/"@,
            p,
        ) && (manifests[i].content_type == "application/vnd.oci.image.index.v1+json"@
            || manifests[i].content_type
            == "application/vnd.docker.distribution.manifest.list.v2+json"@) && text_lists(
            texts[i],
            c,
        )
}

/// The content types of lists.
proof fn lemma_list_types()
    ensures
        is_list("application/vnd.oci.image.index.v1+json"@),
        is_list("application/vnd.docker.distribution.manifest.list.v2+json"@),
{
    let a = "application/vnd.oci.image.index.v1+json"@;
    let b = "application/vnd.docker.distribution.manifest.list.v2+json"@;
    reveal_strlit("application/vnd.oci.image.index.v1+json");
    reveal_strlit("application/vnd.docker.distribution.manifest.list.v2+json");
    reveal_strlit("image.index");
    reveal_strlit("manifest.list");
    assert(a =~= a.take(20) + "image.index"@ + a.skip(31));
    assert(between(a, a.take(20), "image.index"@, a.skip(31)));
    law_infix_stands_between(a, "image.index"@);
    assert(b =~= b.take(36) + "manifest.list"@ + b.skip(49));
    assert(between(b, b.take(36), "manifest.list"@, b.skip(49)));
    law_infix_stands_between(b, "manifest.list"@);
}

/// What a map of children says of a digest: nothing where no list of it was read,
/// else what those lists refer to.
proof fn lemma_child_map(
    manifests: Seq<GcRecordView>,
    texts: Seq<Option<Seq<char>>>,
    p: Seq<char>,
    n: int,
)
    requires
        0 <= n <= manifests.len(),
        manifests.len() == texts.len(),
    ensures
        ascending(keys_of(child_map(manifests, texts, n))),
        lookup(child_map(manifests, texts, n), key1(p)) matches Some(cs) ==> is_listed_by(
            manifests,
            texts,
            p,
            n,
            cs,
        ),
        forall|i: int|
            0 <= i < n && is_read_list(#[trigger] manifests[i], texts[i], p) ==> lookup(
                child_map(manifests, texts, n),
                key1(p),
            ) is Some,
    decreases n,
{
    if n > 0 {
        lemma_child_map(manifests, texts, p, n - 1);
        let before = child_map(manifests, texts, n - 1);
        let after = child_map(manifests, texts, n);
        let r = manifests[n - 1];
        if let Some(d) = path_digest(r.path, "/_manifests/"@, "_manifests/"@) {
            if is_list(r.content_type) && texts[n - 1] is Some {
                lemma_put(before, key1(d), text_refs(texts[n - 1]));
                assert(lookup(after, key1(p)) == (if key1(p) == key1(d) {
                    Some(text_refs(texts[n - 1]))
                } else {
                    lookup(before, key1(p))
                }));
                if key1(p) == key1(d) {
                    assert(key1(p)[0] == key1(d)[0]);
                    assert(is_read_list(manifests[n - 1], texts[n - 1], p));
                    assert(is_listed_by(manifests, texts, p, n, text_refs(texts[n - 1])));
                }
            }
        }
        if let Some(cs) = lookup(before, key1(p)) {
            let i = choose|i: int|
                0 <= i < n - 1 && is_read_list(#[trigger] manifests[i], texts[i], p) && cs
                    == text_refs(texts[i]);
            assert(is_listed_by(manifests, texts, p, n, cs));
        }
        assert forall|i: int|
            0 <= i < n && is_read_list(#[trigger] manifests[i], texts[i], p) implies lookup(
            after,
            key1(p),
        ) is Some by {
            if i == n - 1 {
                assert(key1(p) == key1(p));
            }
        }
    } else {
        assert(keys_of(child_map(manifests, texts, n)).len() == 0);
    }
}

/// A record is a list of a digest that was read.
spec fn is_read_list(r: GcRecordView, text: Option<Seq<char>>, p: Seq<char>) -> bool {
    path_digest(r.path, "/_manifests/"@, "_manifests/"@) == Some(p) && is_list(r.content_type)
        && text is Some
}

/// Some list of a digest refers to these digests.
spec fn is_listed_by(
    manifests: Seq<GcRecordView>,
    texts: Seq<Option<Seq<char>>>,
    p: Seq<char>,
    n: int,
    cs: Seq<Seq<char>>,
) -> bool {
    exists|i: int|
        0 <= i < n && is_read_list(#[trigger] manifests[i], texts[i], p) && cs == text_refs(
            texts[i],
        )
}

/// A child that a read list leads to is a child in the map.
proof fn lemma_listed_child(
    manifests: Seq<GcRecordView>,
    texts: Seq<Option<Seq<char>>>,
    p: Seq<char>,
    c: Seq<char>,
)
    requires
        manifests.len() == texts.len(),
        one_text_per_digest(manifests, texts),
        !p.contains('/'),
        list_leads(manifests, texts, p, c),
    ensures
        children(child_map(manifests, texts, manifests.len() as int), p).contains(c),
{
    let n = manifests.len() as int;
    let i = choose|i: int|
        0 <= i < manifests.len() && leads_to_digest(
            (#[trigger] manifests[i]).path,
            "_manifests/"@,
            p,
        ) && (manifests[i].content_type == "application/vnd.oci.image.index.v1+json"@
            || manifests[i].content_type
            == "application/vnd.docker.distribution.manifest.list.v2+json"@) && text_lists(
            texts[i],
            c,
        );
    lemma_list_types();
    law_digest_ends_the_path(manifests[i].path, p);
    assert(is_read_list(manifests[i], texts[i], p));
    lemma_child_map(manifests, texts, p, n);
    let cs = lookup(child_map(manifests, texts, n), key1(p))->Some_0;
    let k = choose|k: int|
        0 <= k < n && is_read_list(#[trigger] manifests[k], texts[k], p) && cs == text_refs(texts[k]);
    law_digest_ends_the_path(manifests[k].path, p);
    assert(texts[k] == texts[i]);
    let t = texts[i]->Some_0;
    let j = json_document(encode_utf8(t))->Some_0;
    law_manifest_refers_to_its_parts(j, c);
    assert(all_refs(j).contains(c));
}

/// A way from a tag through lists that were read.
pub open spec fn is_way_from_tag(
    tags: Seq<Seq<char>>,
    manifests: Seq<GcRecordView>,
    texts: Seq<Option<Seq<char>>>,
    way: Seq<Seq<char>>,
) -> bool {
    way.len() > 0 && tags.contains(way[0]) && forall|i: int|
        0 < i < way.len() ==> #[trigger] list_leads(manifests, texts, way[i - 1], way[i])
}

/// Along a way every digest is reached.
proof fn lemma_way_is_reached(
    tags: Seq<Seq<char>>,
    manifests: Seq<GcRecordView>,
    texts: Seq<Option<Seq<char>>>,
    way: Seq<Seq<char>>,
    i: int,
)
    requires
        manifests.len() == texts.len(),
        one_text_per_digest(manifests, texts),
        is_way_from_tag(tags, manifests, texts, way),
        forall|k: int| 0 <= k < way.len() ==> !(#[trigger] way[k]).contains('/'),
        0 <= i < way.len(),
    ensures
        is_walk(tags, child_map(manifests, texts, manifests.len() as int), way.take(i + 1)),
        reached(tags, child_map(manifests, texts, manifests.len() as int), way[i]),
    decreases i,
{
    let map = child_map(manifests, texts, manifests.len() as int);
    let walk = way.take(i + 1);
    assert forall|k: int| 0 < k < walk.len() implies children(map, walk[k - 1]).contains(
        #[trigger] walk[k],
    ) by {
        assert(list_leads(manifests, texts, way[k - 1], way[k]));
        assert(!way[k - 1].contains('/'));
        lemma_listed_child(manifests, texts, way[k - 1], way[k]);
    }
    assert(is_walk(tags, map, walk));
    assert(walk.last() == way[i]);
}

/// A manifest that a tag leads to, through any number of OCI indexes and docker
/// manifest lists, is not collected: no record of a digest that such a list names
/// among its manifests is.
pub proof fn law_tagged_list_protects_what_it_lists(
    tags: Seq<Seq<char>>,
    manifests: Seq<GcRecordView>,
    texts: Seq<Option<Seq<char>>>,
    cutoff: Timestamp,
    way: Seq<Seq<char>>,
    dead: (Seq<char>, u64),
)
    requires
        manifests.len() == texts.len(),
        one_text_per_digest(manifests, texts),
        is_way_from_tag(tags, manifests, texts, way),
        forall|k: int| 0 <= k < way.len() ==> !(#[trigger] way[k]).contains('/'),
        dead_manifest_list(tags, manifests, texts, cutoff).contains(dead),
    ensures
        forall|k: int|
            0 <= k < way.len() ==> !leads_to_digest(dead.0, "_manifests/"@, #[trigger] way[k]),
{
    let map = child_map(manifests, texts, manifests.len() as int);
    let f = dead_manifest(tags, map, cutoff);
    lemma_filter_map_contains(manifests, f, dead);
    let x = choose|x: int| 0 <= x < manifests.len() && #[trigger] f(manifests[x]) == Some(dead);
    assert forall|k: int| 0 <= k < way.len() implies !leads_to_digest(
        dead.0,
        "_manifests/"@,
        #[trigger] way[k],
    ) by {
        lemma_way_is_reached(tags, manifests, texts, way, k);
        law_digest_ends_the_path(dead.0, way[k]);
        assert(manifests[x].path == dead.0);
    }
}

/// A record that was made at the cutoff or before.
pub open spec fn is_old(r: GcRecordView, cutoff: Timestamp) -> bool {
    r.created_at.secs < cutoff.secs || (r.created_at.secs == cutoff.secs && r.created_at.nanos
        <= cutoff.nanos)
}

/// What is collected are old records of the repository, with their sizes.
pub proof fn law_only_old_records_are_collected(
    tags: Seq<Seq<char>>,
    manifests: Seq<GcRecordView>,
    blob_refs: Seq<GcRecordView>,
    texts: Seq<Option<Seq<char>>>,
    filter: Seq<u8>,
    cutoff: Timestamp,
    dead: (Seq<char>, u64),
)
    ensures
        dead_manifest_list(tags, manifests, texts, cutoff).contains(dead) ==> is_old_record(
            manifests,
            cutoff,
            dead,
        ),
        dead_layers(blob_refs, texts, filter, cutoff).contains(dead) ==> is_old_record(
            blob_refs,
            cutoff,
            dead,
        ),
{
    let map = child_map(manifests, texts, manifests.len() as int);
    let f = dead_manifest(tags, map, cutoff);
    if dead_manifest_list(tags, manifests, texts, cutoff).contains(dead) {
        lemma_filter_map_contains(manifests, f, dead);
        let x = choose|x: int| 0 <= x < manifests.len() && #[trigger] f(manifests[x]) == Some(dead);
        assert(is_old(manifests[x], cutoff));
    }
    let h = dead_blob(with_items(filter, spread(texts, text_items())), cutoff);
    if dead_layers(blob_refs, texts, filter, cutoff).contains(dead) {
        lemma_filter_map_contains(blob_refs, h, dead);
        let x = choose|x: int| 0 <= x < blob_refs.len() && #[trigger] h(blob_refs[x]) == Some(dead);
        assert(is_old(blob_refs[x], cutoff));
    }
}

/// A path and a size are those of an old record.
pub open spec fn is_old_record(
    records: Seq<GcRecordView>,
    cutoff: Timestamp,
    dead: (Seq<char>, u64),
) -> bool {
    exists|i: int|
        0 <= i < records.len() && is_old(#[trigger] records[i], cutoff) && records[i].path == dead.0
            && records[i].size == dead.1
}

/// A text refers to a digest: as its config, a layer or a manifest.
pub open spec fn text_refers(text: Option<Seq<char>>, c: Seq<char>) -> bool {
    text matches Some(t) && json_document(encode_utf8(t)) matches Some(j) && (has_config(j, c)
        || lists(j, "layers"@, c) || lists(j, "manifests"@, c))
}

/// A text refers to what its references hold.
proof fn lemma_text_refs(text: Option<Seq<char>>, c: Seq<char>)
    ensures
        text_refs(text).contains(c) <==> text_refers(text, c),
{
    if let Some(t) = text {
        if let Some(j) = json_document(encode_utf8(t)) {
            law_manifest_refers_to_its_parts(j, c);
        }
    }
}

/// A record whose content type names a list or an index refers from one digest to
/// another.
pub open spec fn may_lead(
    manifests: Seq<GcRecordView>,
    texts: Seq<Option<Seq<char>>>,
    p: Seq<char>,
    c: Seq<char>,
) -> bool {
    exists|i: int|
        0 <= i < manifests.len() && path_digest(
            (#[trigger] manifests[i]).path,
            "/_manifests/"@,
            "_manifests/"@,
        ) == Some(p) && (has_infix(manifests[i].content_type, "manifest.list"@) || has_infix(
            manifests[i].content_type,
            "image.index"@,
        )) && text_refers(texts[i], c)
}

/// A set of digests holds the tags and, with a digest, whatever lists of it refer to.
pub open spec fn is_closed(
    tags: Seq<Seq<char>>,
    manifests: Seq<GcRecordView>,
    texts: Seq<Option<Seq<char>>>,
    alive: Set<Seq<char>>,
) -> bool {
    (forall|t: Seq<char>| #[trigger] tags.contains(t) ==> alive.contains(t)) && forall|
        p: Seq<char>,
        c: Seq<char>,
    |
        alive.contains(p) && #[trigger] may_lead(manifests, texts, p, c) ==> alive.contains(c)
}

/// Every digest on a walk is in a closed set.
proof fn lemma_walk_stays(
    tags: Seq<Seq<char>>,
    manifests: Seq<GcRecordView>,
    texts: Seq<Option<Seq<char>>>,
    alive: Set<Seq<char>>,
    walk: Seq<Seq<char>>,
    i: int,
)
    requires
        manifests.len() == texts.len(),
        is_closed(tags, manifests, texts, alive),
        is_walk(tags, child_map(manifests, texts, manifests.len() as int), walk),
        0 <= i < walk.len(),
    ensures
        alive.contains(walk[i]),
    decreases i,
{
    let n = manifests.len() as int;
    let map = child_map(manifests, texts, n);
    if i == 0 {
        assert(tags.contains(walk[0]));
    } else {
        lemma_walk_stays(tags, manifests, texts, alive, walk, i - 1);
        let p = walk[i - 1];
        let c = walk[i];
        assert(children(map, p).contains(c));
        lemma_child_map(manifests, texts, p, n);
        let cs = lookup(map, key1(p))->Some_0;
        let k = choose|k: int|
            0 <= k < n && is_read_list(#[trigger] manifests[k], texts[k], p) && cs == text_refs(
                texts[k],
            );
        lemma_text_refs(texts[k], c);
        assert(may_lead(manifests, texts, p, c));
    }
}

/// An old manifest outside a set that holds the tags and all that lists in it refer
/// to is collected, in one pass: an untagged list protects nothing.
pub proof fn law_unreached_manifest_is_collected(
    tags: Seq<Seq<char>>,
    manifests: Seq<GcRecordView>,
    texts: Seq<Option<Seq<char>>>,
    cutoff: Timestamp,
    alive: Set<Seq<char>>,
    i: int,
    d: Seq<char>,
)
    requires
        manifests.len() == texts.len(),
        forall|k: int| 0 <= k < texts.len() ==> (#[trigger] texts[k]) is Some,
        is_closed(tags, manifests, texts, alive),
        0 <= i < manifests.len(),
        is_old(manifests[i], cutoff),
        !d.contains('/'),
        leads_to_digest(manifests[i].path, "_manifests/"@, d),
        !alive.contains(d),
    ensures
        dead_manifest_list(tags, manifests, texts, cutoff).contains(
            (manifests[i].path, manifests[i].size),
        ),
{
    let n = manifests.len() as int;
    let map = child_map(manifests, texts, n);
    let f = dead_manifest(tags, map, cutoff);
    law_digest_ends_the_path(manifests[i].path, d);
    if reached(tags, map, d) {
        let walk = choose|walk: Seq<Seq<char>>| #[trigger]
            is_walk(tags, map, walk) && walk.last() == d;
        lemma_walk_stays(tags, manifests, texts, alive, walk, walk.len() - 1);
    }
    if is_blocked(tags, map, manifests, texts) {
        let k = choose|k: int|
            0 <= k < manifests.len() && blocks(
                tags,
                map,
                #[trigger] manifests[k],
                texts[k],
            );
        assert(texts[k] is Some);
    }
    lemma_filter_map_contains(manifests, f, (manifests[i].path, manifests[i].size));
    assert(f(manifests[i]) == Some((manifests[i].path, manifests[i].size)));
}

/// A layer reference is deleted only where every manifest was read and none of them
/// refers to its digest.
pub proof fn law_referenced_layer_stays(
    blob_refs: Seq<GcRecordView>,
    texts: Seq<Option<Seq<char>>>,
    filter: Seq<u8>,
    cutoff: Timestamp,
    dead: (Seq<char>, u64),
    d: Seq<char>,
    i: int,
)
    requires
        filter.len() > header_size(),
        dead_layers(blob_refs, texts, filter, cutoff).contains(dead),
        !d.contains('/'),
        leads_to_digest(dead.0, "_blobs/"@, d),
        0 <= i < texts.len(),
    ensures
        texts[i] is Some,
        !text_refers(texts[i], d),
{
    let truth = Seq::new(texts.len(), |k: int| texts[k]->Some_0);
    assert(texts[i] is Some);
    assert forall|k: int| 0 <= k < texts.len() implies (#[trigger] texts[k] is None || texts[k]
        == Some(truth[k])) by {}
    law_digest_ends_the_path(dead.0, d);
    law_referenced_layer_is_kept(
        blob_refs,
        texts,
        truth,
        filter,
        cutoff,
        dead,
        i,
    );
    lemma_text_refs(texts[i], d);
    assert(truth[i] == texts[i]->Some_0);
}

/// An old layer reference whose digest the filled filter does not hold is deleted
/// where every manifest was read.
pub proof fn law_unreferenced_layer_is_collected(
    blob_refs: Seq<GcRecordView>,
    texts: Seq<Option<Seq<char>>>,
    filter: Seq<u8>,
    cutoff: Timestamp,
    i: int,
    d: Seq<char>,
)
    requires
        forall|k: int| 0 <= k < texts.len() ==> (#[trigger] texts[k]) is Some,
        0 <= i < blob_refs.len(),
        is_old(blob_refs[i], cutoff),
        !d.contains('/'),
        leads_to_digest(blob_refs[i].path, "_blobs/"@, d),
        !holds(with_items(filter, spread(texts, text_items())), encode_utf8(d)),
    ensures
        dead_layers(blob_refs, texts, filter, cutoff).contains(
            (blob_refs[i].path, blob_refs[i].size),
        ),
{
    law_digest_ends_the_path(blob_refs[i].path, d);
    let f = dead_blob(with_items(filter, spread(texts, text_items())), cutoff);
    lemma_filter_map_contains(blob_refs, f, (blob_refs[i].path, blob_refs[i].size));
    assert(f(blob_refs[i]) == Some((blob_refs[i].path, blob_refs[i].size)));
}

/// A record is sorted in by its path alone: under `_blobs/` as a layer reference,
/// else under `_manifests/` as a manifest, else under `_tags/` as the tag of its
/// digest; any other record changes nothing.
pub proof fn law_records_are_sorted_by_path(rs: DockerRecordsView, r: GcRecordView)
    ensures
        ({
            let after = with_record(rs, r);
            let blob = has_prefix(r.path, "_blobs/"@) || has_infix(r.path, "/_blobs/"@);
            let manifest = has_prefix(r.path, "_manifests/"@) || has_infix(
                r.path,
                "/_manifests/"@,
            );
            let tag = has_prefix(r.path, "_tags/"@) || has_infix(r.path, "/_tags/"@);
            &&& after.blob_refs == (if blob {
                rs.blob_refs.push(r)
            } else {
                rs.blob_refs
            })
            &&& after.manifests == (if manifest && !blob {
                rs.manifests.push(r)
            } else {
                rs.manifests
            })
            &&& after.tag_digests == (if tag && !blob && !manifest && r.tag_digest is Some {
                rs.tag_digests.push(r.tag_digest->Some_0)
            } else {
                rs.tag_digests
            })
        }),
{
}

} // verus!
