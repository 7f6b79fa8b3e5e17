//! The docker collector: which layer references and which manifests of a
//! repository are dead.
//!
//! Records are told apart by their path: `_blobs/<digest>` refers to a layer or
//! config, `_manifests/<digest>` is a manifest, `_tags/<name>` a tag; each may
//! stand under an image name. A layer reference is dead where no manifest names
//! its digest. A manifest is dead where no tag reaches it, directly or through
//! manifest lists that are themselves reached; an untagged list protects
//! nothing. Records younger than the grace period are never touched. Where a
//! manifest cannot be read, what it refers to is not known: no layer reference is
//! dead then, and no manifest where a tag reaches an unreadable list.
use crate::docker::manifest::{all_refs, extract_manifest_refs};
use crate::gc::bloom::{
    bloom_check, bloom_set, filter_bytes, header_size, holds, law_added_items_are_held,
    lemma_with_items, with_items,
};
use crate::json::json_document;
use crate::ordered::{
    ascending, insert_key, key1, key_lt, keys_of, lemma_insert_key, lemma_key_lt_irreflexive,
    lemma_put, lemma_rank, lemma_text_keys, lookup, put, rank, text_keys, KeySet, OrderedMap,
};
use crate::seqs::{
    lemma_filter_contains, lemma_filter_map_contains, lemma_filter_map_step, lemma_filter_step,
    lemma_spread_contains, lemma_spread_step, lemma_take_all, push_all, push_item, spread,
};
use crate::text::{
    after_last, after_prefix, contains, copy_texts, has_infix, has_prefix, starts_with,
    strip_prefix, text_after_last,
};
use crate::time::{is_later, later, Timestamp};
use bloomfilter::Bloom;
use vstd::prelude::*;
use vstd::utf8::encode_utf8;

verus! {

/// What the collector reads of an artifact record.
#[derive(Debug)]
pub struct GcRecord {
    pub path: String,
    pub created_at: Timestamp,
    pub size: u64,
    pub content_type: String,
    /// The manifest digest of a tag record.
    pub tag_digest: Option<String>,
}

/// The contents of a [`GcRecord`].
#[verifier::ext_equal]
pub struct GcRecordView {
    pub path: Seq<char>,
    pub created_at: Timestamp,
    pub size: u64,
    pub content_type: Seq<char>,
    pub tag_digest: Option<Seq<char>>,
}

impl DeepView for GcRecord {
    type V = GcRecordView;

    open spec fn deep_view(&self) -> GcRecordView {
        GcRecordView {
            path: self.path@,
            created_at: self.created_at,
            size: self.size,
            content_type: self.content_type@,
            tag_digest: self.tag_digest.deep_view(),
        }
    }
}

/// The docker records of a repository, by kind.
#[derive(Debug)]
pub struct DockerRecords {
    pub manifests: Vec<GcRecord>,
    pub blob_refs: Vec<GcRecord>,
    pub tag_digests: Vec<String>,
}

/// The contents of [`DockerRecords`].
#[verifier::ext_equal]
pub struct DockerRecordsView {
    pub manifests: Seq<GcRecordView>,
    pub blob_refs: Seq<GcRecordView>,
    pub tag_digests: Seq<Seq<char>>,
}

impl DeepView for DockerRecords {
    type V = DockerRecordsView;

    open spec fn deep_view(&self) -> DockerRecordsView {
        DockerRecordsView {
            manifests: self.manifests.deep_view(),
            blob_refs: self.blob_refs.deep_view(),
            tag_digests: self.tag_digests.deep_view(),
        }
    }
}

/// A path leads through a directory: `inner` is the directory below an image,
/// `outer` the directory at the top.
pub open spec fn in_dir(path: Seq<char>, inner: Seq<char>, outer: Seq<char>) -> bool {
    has_infix(path, inner) || has_prefix(path, outer)
}

/// The records with one more sorted in. A tag record without a digest, and a
/// record of another kind, are left out.
pub open spec fn with_record(rs: DockerRecordsView, r: GcRecordView) -> DockerRecordsView {
    if in_dir(r.path, "/_blobs/"@, "_blobs/"@) {
        DockerRecordsView { blob_refs: rs.blob_refs.push(r), ..rs }
    } else if in_dir(r.path, "/_manifests/"@, "_manifests/"@) {
        DockerRecordsView { manifests: rs.manifests.push(r), ..rs }
    } else if in_dir(r.path, "/_tags/"@, "_tags/"@) {
        match r.tag_digest {
            Some(d) => DockerRecordsView { tag_digests: rs.tag_digests.push(d), ..rs },
            None => rs,
        }
    } else {
        rs
    }
}

impl DockerRecords {
    /// No records.
    pub fn new() -> (r: Self)
        ensures
            r.deep_view() == (DockerRecordsView {
                manifests: Seq::empty(),
                blob_refs: Seq::empty(),
                tag_digests: Seq::empty(),
            }),
    {
        let r = DockerRecords {
            manifests: Vec::new(),
            blob_refs: Vec::new(),
            tag_digests: Vec::new(),
        };
        assert(r.deep_view() =~= (DockerRecordsView {
            manifests: Seq::empty(),
            blob_refs: Seq::empty(),
            tag_digests: Seq::empty(),
        }));
        r
    }

    /// Sort a record in.
    pub fn note(&mut self, r: GcRecord)
        ensures
            final(self).deep_view() == with_record(old(self).deep_view(), r.deep_view()),
    {
        let path = r.path.as_str();
        if contains(path, "/_blobs/") || starts_with(path, "_blobs/") {
            push_item(&mut self.blob_refs, r);
        } else if contains(path, "/_manifests/") || starts_with(path, "_manifests/") {
            push_item(&mut self.manifests, r);
        } else if contains(path, "/_tags/") || starts_with(path, "_tags/") {
            if let Some(d) = r.tag_digest {
                push_item(&mut self.tag_digests, d);
            }
        }
    }

    /// Take over the records of another shard.
    pub fn absorb(&mut self, other: DockerRecords)
        ensures
            final(self).deep_view() == (DockerRecordsView {
                manifests: old(self).deep_view().manifests + other.deep_view().manifests,
                blob_refs: old(self).deep_view().blob_refs + other.deep_view().blob_refs,
                tag_digests: old(self).deep_view().tag_digests + other.deep_view().tag_digests,
            }),
    {
        push_all(&mut self.manifests, other.manifests);
        push_all(&mut self.blob_refs, other.blob_refs);
        push_all(&mut self.tag_digests, other.tag_digests);
    }
}

/// The digest at the end of a path.
pub open spec fn path_digest(path: Seq<char>, inner: Seq<char>, outer: Seq<char>) -> Option<
    Seq<char>,
> {
    match after_last(path, inner) {
        Some(d) => Some(d),
        None => after_prefix(path, outer),
    }
}

/// The digest at the end of a path.
fn digest_in_path(path: &str, inner: &str, outer: &str) -> (r: Option<String>)
    ensures
        r.deep_view() == path_digest(path@, inner@, outer@),
{
    match text_after_last(path, inner) {
        Some(d) => Some(d),
        None => strip_prefix(path, outer),
    }
}

/// The digests that a manifest's text refers to.
pub open spec fn text_refs(text: Option<Seq<char>>) -> Seq<Seq<char>> {
    match text {
        Some(t) => match json_document(encode_utf8(t)) {
            Some(j) => all_refs(j),
            None => Seq::empty(),
        },
        None => Seq::empty(),
    }
}

/// The digests that a manifest's text refers to.
fn refs_of_text(text: &Option<String>) -> (out: Vec<String>)
    ensures
        out.deep_view() == text_refs(text.deep_view()),
{
    match text {
        Some(t) => extract_manifest_refs(t.as_str()),
        None => {
            let out: Vec<String> = Vec::new();
            assert(out.deep_view() =~= Seq::<Seq<char>>::empty());
            out
        },
    }
}

/// A digest as a filter item.
pub open spec fn as_item() -> spec_fn(Seq<char>) -> Seq<u8> {
    |d: Seq<char>| encode_utf8(d)
}

/// The filter items of a manifest's text.
pub open spec fn text_items() -> spec_fn(Option<Seq<char>>) -> Seq<Seq<u8>> {
    |t: Option<Seq<char>>| text_refs(t).map_values(as_item())
}

/// Add every digest that a manifest refers to.
fn add_refs(filter: &mut Bloom<[u8]>, text: &Option<String>)
    requires
        filter_bytes(*old(filter)).len() > header_size(),
    ensures
        filter_bytes(*final(filter)) == with_items(
            filter_bytes(*old(filter)),
            text_items()(text.deep_view()),
        ),
        filter_bytes(*final(filter)).len() == filter_bytes(*old(filter)).len(),
{
    let refs = refs_of_text(text);
    let ghost start = filter_bytes(*filter);
    let ghost items = text_items()(text.deep_view());
    let ghost ds = refs.deep_view();
    let mut i: usize = 0;
    assert(items.take(0) =~= Seq::<Seq<u8>>::empty());
    while i < refs.len()
        invariant
            ds == refs.deep_view(),
            items == ds.map_values(as_item()),
            i <= refs@.len(),
            start.len() > header_size(),
            filter_bytes(*filter) == with_items(start, items.take(i as int)),
        decreases refs@.len() - i,
    {
        proof {
            lemma_with_items(start, items.take(i as int));
            assert(items.take(i + 1).drop_last() =~= items.take(i as int));
            assert(items.take(i + 1).last() == encode_utf8(refs@[i as int]@));
        }
        bloom_set(filter, refs[i].as_str().as_bytes());
        i = i + 1;
    }
    proof {
        lemma_take_all(items);
        lemma_with_items(start, items);
    }
}

/// Adding items in two batches.
proof fn lemma_with_items_add(bytes: Seq<u8>, a: Seq<Seq<u8>>, b: Seq<Seq<u8>>)
    ensures
        with_items(with_items(bytes, a), b) == with_items(bytes, a + b),
    decreases b.len(),
{
    if b.len() == 0 {
        assert(a + b =~= a);
    } else {
        lemma_with_items_add(bytes, a, b.drop_last());
        assert((a + b).drop_last() =~= a + b.drop_last());
    }
}

/// Fill a filter with every digest that the manifests refer to. `texts` holds
/// the manifests' texts, as far as they could be read.
pub fn fill_layer_filter(filter: &mut Bloom<[u8]>, texts: &[Option<String>])
    requires
        filter_bytes(*old(filter)).len() > header_size(),
    ensures
        filter_bytes(*final(filter)) == with_items(
            filter_bytes(*old(filter)),
            spread(texts.deep_view(), text_items()),
        ),
        filter_bytes(*final(filter)).len() == filter_bytes(*old(filter)).len(),
{
    let ghost start = filter_bytes(*filter);
    let ghost ts = texts.deep_view();
    let mut i: usize = 0;
    assert(spread(ts.take(0), text_items()) =~= Seq::<Seq<u8>>::empty());
    while i < texts.len()
        invariant
            ts == texts.deep_view(),
            i <= texts@.len(),
            start.len() > header_size(),
            filter_bytes(*filter).len() == start.len(),
            filter_bytes(*filter) == with_items(start, spread(ts.take(i as int), text_items())),
        decreases texts@.len() - i,
    {
        proof {
            lemma_spread_step(ts, text_items(), i as int);
            lemma_with_items_add(
                start,
                spread(ts.take(i as int), text_items()),
                text_items()(ts[i as int]),
            );
            assert(ts[i as int] == texts@[i as int].deep_view());
        }
        add_refs(filter, &texts[i]);
        i = i + 1;
    }
    proof {
        lemma_take_all(ts);
    }
}

/// Takes a dead layer reference: old enough, with a digest that the filter does
/// not hold.
pub open spec fn dead_blob(filter: Seq<u8>, cutoff: Timestamp) -> spec_fn(GcRecordView) -> Option<
    (Seq<char>, u64),
> {
    |r: GcRecordView|
        if later(r.created_at, cutoff) {
            None
        } else {
            match path_digest(r.path, "/_blobs/"@, "_blobs/"@) {
                Some(d) => if holds(filter, encode_utf8(d)) {
                    None
                } else {
                    Some((r.path, r.size))
                },
                None => None,
            }
        }
}

/// The dead layer references: path and size of each.
pub fn dead_blobs(blob_refs: &[GcRecord], filter: &Bloom<[u8]>, cutoff: Timestamp) -> (out: Vec<
    (String, u64),
>)
    requires
        filter_bytes(*filter).len() > header_size(),
    ensures
        out.deep_view() == blob_refs.deep_view().filter_map(
            dead_blob(filter_bytes(*filter), cutoff),
        ),
{
    let ghost rs = blob_refs.deep_view();
    let ghost f = dead_blob(filter_bytes(*filter), cutoff);
    let mut out: Vec<(String, u64)> = Vec::new();
    let mut i: usize = 0;
    assert(out.deep_view() =~= rs.take(0).filter_map(f));
    while i < blob_refs.len()
        invariant
            rs == blob_refs.deep_view(),
            f == dead_blob(filter_bytes(*filter), cutoff),
            filter_bytes(*filter).len() > header_size(),
            i <= blob_refs@.len(),
            out.deep_view() == rs.take(i as int).filter_map(f),
        decreases blob_refs@.len() - i,
    {
        let r = &blob_refs[i];
        proof {
            lemma_filter_map_step(rs, f, i as int);
            assert(rs[i as int] == r.deep_view());
        }
        if !is_later(r.created_at, cutoff) {
            if let Some(d) = digest_in_path(r.path.as_str(), "/_blobs/", "_blobs/") {
                if !bloom_check(filter, d.as_str().as_bytes()) {
                    push_item(&mut out, (r.path.clone(), r.size));
                }
            }
        }
        i = i + 1;
    }
    proof {
        lemma_take_all(rs);
    }
    out
}

/// Every manifest could be read.
pub open spec fn all_read(texts: Seq<Option<Seq<char>>>) -> bool {
    forall|i: int| 0 <= i < texts.len() ==> #[trigger] texts[i] is Some
}

/// Whether every manifest could be read.
fn every_text_read(texts: &[Option<String>]) -> (r: bool)
    ensures
        r == all_read(texts.deep_view()),
{
    let ghost ts = texts.deep_view();
    let mut i: usize = 0;
    while i < texts.len()
        invariant
            ts == texts.deep_view(),
            i <= texts@.len(),
            forall|j: int| 0 <= j < i ==> #[trigger] ts[j] is Some,
        decreases texts@.len() - i,
    {
        assert(ts[i as int] == texts@[i as int].deep_view());
        if texts[i].is_none() {
            return false;
        }
        i = i + 1;
    }
    true
}

/// The layer references that a collection deletes: those that no manifest refers
/// to, as far as `filter` tells, and none where a manifest could not be read.
pub open spec fn dead_layers(
    blob_refs: Seq<GcRecordView>,
    texts: Seq<Option<Seq<char>>>,
    filter: Seq<u8>,
    cutoff: Timestamp,
) -> Seq<(Seq<char>, u64)> {
    if all_read(texts) {
        blob_refs.filter_map(dead_blob(with_items(filter, spread(texts, text_items())), cutoff))
    } else {
        Seq::empty()
    }
}

/// A content type of a manifest list or index.
pub open spec fn is_list(content_type: Seq<char>) -> bool {
    has_infix(content_type, "manifest.list"@) || has_infix(content_type, "image.index"@)
}

/// Whether a content type is that of a manifest list or index.
fn list_type(content_type: &str) -> (r: bool)
    ensures
        r == is_list(content_type@),
{
    contains(content_type, "manifest.list") || contains(content_type, "image.index")
}

/// The children of the manifest lists among the first `n` manifests, by digest.
pub open spec fn child_map(
    manifests: Seq<GcRecordView>,
    texts: Seq<Option<Seq<char>>>,
    n: int,
) -> Seq<(Seq<Seq<char>>, Seq<Seq<char>>)>
    decreases n,
{
    if n <= 0 {
        Seq::empty()
    } else {
        let before = child_map(manifests, texts, n - 1);
        let r = manifests[n - 1];
        match path_digest(r.path, "/_manifests/"@, "_manifests/"@) {
            Some(d) => if is_list(r.content_type) && texts[n - 1] is Some {
                put(before, key1(d), text_refs(texts[n - 1]))
            } else {
                before
            },
            None => before,
        }
    }
}

/// The children of the manifest lists, by digest.
fn map_children(manifests: &[GcRecord], texts: &[Option<String>]) -> (out: OrderedMap<
    String,
    Vec<String>,
>)
    requires
        manifests@.len() == texts@.len(),
    ensures
        out@ == child_map(manifests.deep_view(), texts.deep_view(), manifests@.len() as int),
{
    let ghost ms = manifests.deep_view();
    let ghost ts = texts.deep_view();
    let mut out: OrderedMap<String, Vec<String>> = OrderedMap::new();
    let mut i: usize = 0;
    while i < manifests.len()
        invariant
            ms == manifests.deep_view(),
            ts == texts.deep_view(),
            manifests@.len() == texts@.len(),
            i <= manifests@.len(),
            out@ == child_map(ms, ts, i as int),
        decreases manifests@.len() - i,
    {
        let r = &manifests[i];
        proof {
            assert(ms[i as int] == r.deep_view());
            assert(ts[i as int] == texts@[i as int].deep_view());
        }
        if list_type(r.content_type.as_str()) {
            if let Some(d) = digest_in_path(r.path.as_str(), "/_manifests/", "_manifests/") {
                if texts[i].is_some() {
                    out.insert(d, refs_of_text(&texts[i]));
                }
            }
        }
        i = i + 1;
    }
    out
}

/// The children of a digest.
pub open spec fn children(map: Seq<(Seq<Seq<char>>, Seq<Seq<char>>)>, d: Seq<char>) -> Seq<
    Seq<char>,
> {
    match lookup(map, key1(d)) {
        Some(cs) => cs,
        None => Seq::empty(),
    }
}

/// A walk from a tag: each digest after the first is a child of the one before.
pub open spec fn is_walk(
    tags: Seq<Seq<char>>,
    map: Seq<(Seq<Seq<char>>, Seq<Seq<char>>)>,
    walk: Seq<Seq<char>>,
) -> bool {
    walk.len() > 0 && tags.contains(walk[0]) && forall|i: int|
        0 < i < walk.len() ==> children(map, walk[i - 1]).contains(#[trigger] walk[i])
}

/// A digest is reached from a tag.
pub open spec fn reached(
    tags: Seq<Seq<char>>,
    map: Seq<(Seq<Seq<char>>, Seq<Seq<char>>)>,
    d: Seq<char>,
) -> bool {
    exists|walk: Seq<Seq<char>>| #[trigger] is_walk(tags, map, walk) && walk.last() == d
}

/// A tagged digest is reached.
proof fn lemma_tag_reached(
    tags: Seq<Seq<char>>,
    map: Seq<(Seq<Seq<char>>, Seq<Seq<char>>)>,
    d: Seq<char>,
)
    requires
        tags.contains(d),
    ensures
        reached(tags, map, d),
{
    let walk = seq![d];
    assert(is_walk(tags, map, walk));
    assert(walk.last() == d);
}

/// A child of a reached digest is reached.
proof fn lemma_child_reached(
    tags: Seq<Seq<char>>,
    map: Seq<(Seq<Seq<char>>, Seq<Seq<char>>)>,
    d: Seq<char>,
    c: Seq<char>,
)
    requires
        reached(tags, map, d),
        children(map, d).contains(c),
    ensures
        reached(tags, map, c),
{
    let walk = choose|walk: Seq<Seq<char>>| #[trigger]
        is_walk(tags, map, walk) && walk.last() == d;
    let more = walk.push(c);
    assert forall|i: int| 0 < i < more.len() implies children(map, more[i - 1]).contains(
        #[trigger] more[i],
    ) by {
        if i < walk.len() {
            assert(children(map, walk[i - 1]).contains(walk[i]));
        }
    }
    assert(is_walk(tags, map, more));
    assert(more.last() == c);
}

/// A set that holds the tags and, with a digest, its children, holds every
/// reached digest.
proof fn lemma_closed_set_holds_walk(
    tags: Seq<Seq<char>>,
    map: Seq<(Seq<Seq<char>>, Seq<Seq<char>>)>,
    seen: Seq<Seq<Seq<char>>>,
    walk: Seq<Seq<char>>,
    i: int,
)
    requires
        is_walk(tags, map, walk),
        0 <= i < walk.len(),
        forall|t: Seq<char>| #[trigger] tags.contains(t) ==> seen.contains(key1(t)),
        forall|d: Seq<char>, c: Seq<char>|
            seen.contains(#[trigger] key1(d)) && #[trigger] children(map, d).contains(c)
                ==> seen.contains(key1(c)),
    ensures
        seen.contains(key1(walk[i])),
    decreases i,
{
    if i == 0 {
        assert(tags.contains(walk[0]));
    } else {
        lemma_closed_set_holds_walk(tags, map, seen, walk, i - 1);
        assert(children(map, walk[i - 1]).contains(walk[i]));
        assert(seen.contains(key1(walk[i - 1])));
    }
}

/// Takes the children of an entry.
pub open spec fn entry_children() -> spec_fn((Seq<Seq<char>>, Seq<Seq<char>>)) -> Seq<Seq<char>> {
    |e: (Seq<Seq<char>>, Seq<Seq<char>>)| e.1
}

/// Every digest that can be met on a walk, as keys.
spec fn world(tags: Seq<Seq<char>>, map: Seq<(Seq<Seq<char>>, Seq<Seq<char>>)>) -> Set<
    Seq<Seq<char>>,
> {
    text_keys(tags + spread(map, entry_children())).to_set()
}

/// A tag, or a child of anything, can be met.
proof fn lemma_in_world(
    tags: Seq<Seq<char>>,
    map: Seq<(Seq<Seq<char>>, Seq<Seq<char>>)>,
    d: Seq<char>,
)
    requires
        ascending(keys_of(map)),
        tags.contains(d) || exists|p: Seq<char>| #[trigger] children(map, p).contains(d),
    ensures
        world(tags, map).contains(key1(d)),
{
    let all = tags + spread(map, entry_children());
    if tags.contains(d) {
        let i = choose|i: int| 0 <= i < tags.len() && tags[i] == d;
        assert(all[i] == d);
    } else {
        let p = choose|p: Seq<char>| #[trigger] children(map, p).contains(d);
        let k = key1(p);
        lemma_rank(keys_of(map), k);
        let r = rank(keys_of(map), k);
        assert(entry_children()(map[r]).contains(d));
        lemma_spread_contains(map, entry_children(), d);
        let cs = spread(map, entry_children());
        assert(cs.contains(d));
        let i = choose|i: int| 0 <= i < cs.len() && cs[i] == d;
        assert(all[tags.len() + i] == d);
    }
    assert(all.contains(d));
    lemma_text_keys(all, d);
    assert(text_keys(all).contains(key1(d)));
}

/// As many keys as a set holds at most.
proof fn lemma_bounded(seen: Seq<Seq<Seq<char>>>, all: Set<Seq<Seq<char>>>)
    requires
        ascending(seen),
        all.finite(),
        forall|k: Seq<Seq<char>>| #[trigger] seen.contains(k) ==> all.contains(k),
    ensures
        seen.len() <= all.len(),
{
    assert(seen.no_duplicates()) by {
        assert forall|i: int, j: int|
            0 <= i < seen.len() && 0 <= j < seen.len() && i != j implies seen[i] != seen[j] by {
            lemma_key_lt_irreflexive(seen[i]);
            if i < j {
                assert(key_lt(seen[i], seen[j]));
            } else {
                assert(key_lt(seen[j], seen[i]));
            }
        }
    }
    seen.unique_seq_to_set();
    assert(seen.to_set().subset_of(all)) by {
        assert forall|k: Seq<Seq<char>>| #[trigger] seen.to_set().contains(k) implies all.contains(
            k,
        ) by {
            assert(seen.contains(k));
        }
    }
    vstd::set_lib::lemma_len_subset(seen.to_set(), all);
}

/// Tells digests that were not seen yet.
spec fn is_new(seen: Seq<Seq<Seq<char>>>) -> spec_fn(Seq<char>) -> bool {
    |d: Seq<char>| !seen.contains(key1(d))
}

/// What holds while the digests are walked: `seen` are reached and their children
/// are seen or waiting, every tag is seen or waiting, and what waits is reached.
#[verifier::opaque]
spec fn walking(
    tags: Seq<Seq<char>>,
    map: Seq<(Seq<Seq<char>>, Seq<Seq<char>>)>,
    seen: Seq<Seq<Seq<char>>>,
    queue: Seq<Seq<char>>,
) -> bool {
    &&& ascending(keys_of(map))
    &&& ascending(seen)
    &&& forall|k: Seq<Seq<char>>| #[trigger] seen.contains(k) ==> world(tags, map).contains(k)
    &&& forall|d: Seq<char>| seen.contains(#[trigger] key1(d)) ==> reached(tags, map, d)
    &&& forall|d: Seq<char>| #[trigger]
        queue.contains(d) ==> reached(tags, map, d) && world(tags, map).contains(key1(d))
    &&& forall|t: Seq<char>| #[trigger]
        tags.contains(t) ==> seen.contains(key1(t)) || queue.contains(t)
    &&& forall|d: Seq<char>, c: Seq<char>|
        seen.contains(#[trigger] key1(d)) && #[trigger] children(map, d).contains(c)
            ==> seen.contains(key1(c)) || queue.contains(c)
}

/// The walk starts with the tags.
proof fn lemma_walk_starts(
    tags: Seq<Seq<char>>,
    map: Seq<(Seq<Seq<char>>, Seq<Seq<char>>)>,
)
    requires
        ascending(keys_of(map)),
    ensures
        walking(tags, map, Seq::empty(), tags),
{
    reveal(walking);
    assert forall|d: Seq<char>| #[trigger] tags.contains(d) implies reached(tags, map, d)
        && world(tags, map).contains(key1(d)) by {
        lemma_tag_reached(tags, map, d);
        lemma_in_world(tags, map, d);
    }
}

/// An item of a sequence is its last one or stands before it.
proof fn lemma_last_or_before<T>(q: Seq<T>, x: T)
    requires
        q.len() > 0,
    ensures
        q.contains(x) <==> x == q.last() || q.drop_last().contains(x),
{
    let rest = q.drop_last();
    if q.contains(x) {
        let i = choose|i: int| 0 <= i < q.len() && q[i] == x;
        if i < rest.len() {
            assert(rest[i] == x);
        }
    }
    if rest.contains(x) {
        let i = choose|i: int| 0 <= i < rest.len() && rest[i] == x;
        assert(q[i] == x);
    }
    assert(q[q.len() - 1] == q.last());
}

/// A waiting digest that was seen already is skipped.
proof fn lemma_walk_skips(
    tags: Seq<Seq<char>>,
    map: Seq<(Seq<Seq<char>>, Seq<Seq<char>>)>,
    seen: Seq<Seq<Seq<char>>>,
    queue: Seq<Seq<char>>,
)
    requires
        walking(tags, map, seen, queue),
        queue.len() > 0,
        seen.contains(key1(queue.last())),
    ensures
        walking(tags, map, seen, queue.drop_last()),
{
    reveal(walking);
    let rest = queue.drop_last();
    assert forall|d: Seq<char>| #[trigger] rest.contains(d) implies reached(tags, map, d)
        && world(tags, map).contains(key1(d)) by {
        lemma_last_or_before(queue, d);
    }
    assert forall|t: Seq<char>| #[trigger] tags.contains(t) implies seen.contains(key1(t))
        || rest.contains(t) by {
        lemma_last_or_before(queue, t);
    }
    assert forall|d: Seq<char>, c: Seq<char>|
        seen.contains(#[trigger] key1(d)) && #[trigger] children(map, d).contains(c) implies
        seen.contains(key1(c)) || rest.contains(c) by {
        lemma_last_or_before(queue, c);
    }
}

/// A waiting digest that is new is seen now, and its new children wait.
proof fn lemma_walk_visits(
    tags: Seq<Seq<char>>,
    map: Seq<(Seq<Seq<char>>, Seq<Seq<char>>)>,
    seen: Seq<Seq<Seq<char>>>,
    queue: Seq<Seq<char>>,
)
    requires
        walking(tags, map, seen, queue),
        queue.len() > 0,
        !seen.contains(key1(queue.last())),
    ensures
        ({
            let d = queue.last();
            let now = insert_key(seen, key1(d));
            &&& walking(
                tags,
                map,
                now,
                queue.drop_last() + children(map, d).filter(is_new(now)),
            )
            &&& now.len() == seen.len() + 1
        }),
{
    reveal(walking);
    let d = queue.last();
    let now = insert_key(seen, key1(d));
    let fresh = children(map, d).filter(is_new(now));
    let rest = queue.drop_last();
    let next = rest + fresh;
    lemma_insert_key(seen, key1(d));
    lemma_rank(seen, key1(d));
    lemma_last_or_before(queue, d);
    assert(key1(d)[0] == d);
    assert forall|x: Seq<char>| #[trigger] next.contains(x) <==> rest.contains(x)
        || fresh.contains(x) by {
        if next.contains(x) {
            let i = choose|i: int| 0 <= i < next.len() && next[i] == x;
            if i < rest.len() {
                assert(rest[i] == x);
            } else {
                assert(fresh[i - rest.len()] == x);
            }
        }
        if rest.contains(x) {
            let i = choose|i: int| 0 <= i < rest.len() && rest[i] == x;
            assert(next[i] == x);
        }
        if fresh.contains(x) {
            let i = choose|i: int| 0 <= i < fresh.len() && fresh[i] == x;
            assert(next[rest.len() + i] == x);
        }
    }
    assert forall|k: Seq<Seq<char>>| #[trigger] now.contains(k) implies world(
        tags,
        map,
    ).contains(k) by {
        assert(now.contains(k) <==> k == key1(d) || seen.contains(k));
    }
    assert forall|x: Seq<char>| now.contains(#[trigger] key1(x)) implies reached(tags, map, x) by {
        assert(now.contains(key1(x)) <==> key1(x) == key1(d) || seen.contains(key1(x)));
        assert(key1(x)[0] == x);
    }
    assert forall|x: Seq<char>| #[trigger] next.contains(x) implies reached(tags, map, x)
        && world(tags, map).contains(key1(x)) by {
        lemma_last_or_before(queue, x);
        if fresh.contains(x) {
            lemma_filter_contains(children(map, d), is_new(now), x);
            lemma_child_reached(tags, map, d, x);
            lemma_in_world(tags, map, x);
        }
    }
    assert forall|t: Seq<char>| #[trigger] tags.contains(t) implies now.contains(key1(t))
        || next.contains(t) by {
        lemma_last_or_before(queue, t);
        assert(now.contains(key1(t)) <==> key1(t) == key1(d) || seen.contains(key1(t)));
    }
    assert forall|x: Seq<char>, c: Seq<char>|
        now.contains(#[trigger] key1(x)) && #[trigger] children(map, x).contains(c) implies
        now.contains(key1(c)) || next.contains(c) by {
        assert(now.contains(key1(x)) <==> key1(x) == key1(d) || seen.contains(key1(x)));
        assert(now.contains(key1(c)) <==> key1(c) == key1(d) || seen.contains(key1(c)));
        assert(key1(x)[0] == x);
        if seen.contains(key1(x)) {
            lemma_last_or_before(queue, c);
        } else {
            lemma_filter_contains(children(map, d), is_new(now), c);
        }
    }
}

/// No more digests are seen than can be met.
proof fn lemma_walk_bounded(
    tags: Seq<Seq<char>>,
    map: Seq<(Seq<Seq<char>>, Seq<Seq<char>>)>,
    seen: Seq<Seq<Seq<char>>>,
    queue: Seq<Seq<char>>,
)
    requires
        walking(tags, map, seen, queue),
    ensures
        seen.len() <= world(tags, map).len(),
{
    reveal(walking);
    vstd::seq_lib::seq_to_set_is_finite(text_keys(tags + spread(map, entry_children())));
    lemma_bounded(seen, world(tags, map));
}

/// Where nothing waits any more, the digests seen are the digests reached.
proof fn lemma_walk_ends(
    tags: Seq<Seq<char>>,
    map: Seq<(Seq<Seq<char>>, Seq<Seq<char>>)>,
    seen: Seq<Seq<Seq<char>>>,
)
    requires
        walking(tags, map, seen, Seq::empty()),
    ensures
        forall|d: Seq<char>|
            #![trigger key1(d)]
            seen.contains(key1(d)) <==> reached(tags, map, d),
{
    reveal(walking);
    assert forall|d: Seq<char>| #![trigger key1(d)] reached(tags, map, d) implies seen.contains(
        key1(d),
    ) by {
        let walk = choose|walk: Seq<Seq<char>>| #[trigger]
            is_walk(tags, map, walk) && walk.last() == d;
        lemma_closed_set_holds_walk(tags, map, seen, walk, walk.len() - 1);
    }
}

/// Let the new children of a digest wait.
fn push_new(queue: &mut Vec<String>, cs: &[String], seen: &KeySet<String>)
    ensures
        final(queue).deep_view() == old(queue).deep_view() + cs.deep_view().filter(is_new(seen@)),
{
    let ghost cv = cs.deep_view();
    let ghost start = queue.deep_view();
    let ghost p = is_new(seen@);
    let mut i: usize = 0;
    proof {
        reveal(Seq::filter);
        assert(start + cv.take(0).filter(p) =~= start);
    }
    while i < cs.len()
        invariant
            cv == cs.deep_view(),
            p == is_new(seen@),
            i <= cs@.len(),
            queue.deep_view() == start + cv.take(i as int).filter(p),
        decreases cs@.len() - i,
    {
        proof {
            lemma_filter_step(cv, p, i as int);
            assert(cv[i as int] == cs@[i as int]@);
        }
        if !seen.contains(&cs[i]) {
            push_item(queue, cs[i].clone());
        }
        assert(queue.deep_view() =~= start + cv.take(i + 1).filter(p));
        i = i + 1;
    }
    proof {
        lemma_take_all(cv);
    }
}

/// The digests that are reached from the tags, descending through manifest lists
/// that are themselves reached.
pub fn reachable(tags: &[String], map: &OrderedMap<String, Vec<String>>) -> (seen: KeySet<String>)
    ensures
        forall|d: Seq<char>|
            #![trigger key1(d)]
            seen@.contains(key1(d)) <==> reached(tags.deep_view(), map@, d),
{
    let ghost ts = tags.deep_view();
    let ghost m = map@;
    let n: usize = map.len();
    let mut seen: KeySet<String> = KeySet::new();
    let mut queue = copy_texts(tags);
    proof {
        lemma_walk_starts(ts, m);
        lemma_walk_bounded(ts, m, seen@, queue.deep_view());
    }
    while queue.len() > 0
        invariant
            m == map@,
            walking(ts, m, seen@, queue.deep_view()),
            seen@.len() <= world(ts, m).len(),
        decreases world(ts, m).len() - seen@.len(), queue@.len(),
    {
        let ghost q = queue.deep_view();
        let ghost before = seen@;
        let d = match queue.pop() {
            Some(d) => d,
            None => String::new(),
        };
        proof {
            assert(queue.deep_view() =~= q.drop_last());
            assert(q.last() == d@);
        }
        if seen.contains(&d) {
            proof {
                lemma_walk_skips(ts, m, before, q);
            }
        } else {
            proof {
                lemma_walk_visits(ts, m, before, q);
            }
            seen.insert(d.clone());
            match map.get(&d) {
                Some(cs) => push_new(&mut queue, cs.as_slice(), &seen),
                None => {
                    proof {
                        reveal(Seq::filter);
                        assert(queue.deep_view() =~= q.drop_last() + children(m, d@).filter(
                            is_new(seen@),
                        ));
                    }
                },
            }
            proof {
                lemma_walk_bounded(ts, m, seen@, queue.deep_view());
            }
        }
    }
    proof {
        assert(queue.deep_view() =~= Seq::<Seq<char>>::empty());
        lemma_walk_ends(ts, m, seen@);
    }
    seen
}

/// Takes a dead manifest: old enough, with a digest that no tag reaches.
pub open spec fn dead_manifest(
    tags: Seq<Seq<char>>,
    map: Seq<(Seq<Seq<char>>, Seq<Seq<char>>)>,
    cutoff: Timestamp,
) -> spec_fn(GcRecordView) -> Option<(Seq<char>, u64)> {
    |r: GcRecordView|
        if later(r.created_at, cutoff) {
            None
        } else {
            match path_digest(r.path, "/_manifests/"@, "_manifests/"@) {
                Some(d) => if reached(tags, map, d) {
                    None
                } else {
                    Some((r.path, r.size))
                },
                None => None,
            }
        }
}

/// A tag reaches a manifest list that could not be read.
pub open spec fn is_blocked(
    tags: Seq<Seq<char>>,
    map: Seq<(Seq<Seq<char>>, Seq<Seq<char>>)>,
    manifests: Seq<GcRecordView>,
    texts: Seq<Option<Seq<char>>>,
) -> bool {
    exists|i: int|
        0 <= i < manifests.len() && blocks(tags, map, #[trigger] manifests[i], texts[i])
}

/// A manifest is a list that a tag reaches and that could not be read.
pub open spec fn blocks(
    tags: Seq<Seq<char>>,
    map: Seq<(Seq<Seq<char>>, Seq<Seq<char>>)>,
    r: GcRecordView,
    text: Option<Seq<char>>,
) -> bool {
    is_list(r.content_type) && text is None && (path_digest(
        r.path,
        "/_manifests/"@,
        "_manifests/"@,
    ) matches Some(d) && reached(tags, map, d))
}

/// The manifests that a collection deletes: those that no tag reaches, and none
/// where a tag reaches a manifest list that could not be read.
pub open spec fn dead_manifest_list(
    tags: Seq<Seq<char>>,
    manifests: Seq<GcRecordView>,
    texts: Seq<Option<Seq<char>>>,
    cutoff: Timestamp,
) -> Seq<(Seq<char>, u64)> {
    let map = child_map(manifests, texts, manifests.len() as int);
    if is_blocked(tags, map, manifests, texts) {
        Seq::empty()
    } else {
        manifests.filter_map(dead_manifest(tags, map, cutoff))
    }
}

/// The dead manifests: path and size of each. `texts` holds the manifests'
/// texts, as far as they could be read.
pub fn dead_manifests(
    records: &DockerRecords,
    texts: &[Option<String>],
    cutoff: Timestamp,
) -> (out: Vec<(String, u64)>)
    requires
        records.manifests@.len() == texts@.len(),
    ensures
        out.deep_view() == dead_manifest_list(
            records.deep_view().tag_digests,
            records.deep_view().manifests,
            texts.deep_view(),
            cutoff,
        ),
{
    let map = map_children(records.manifests.as_slice(), texts);
    let seen = reachable(records.tag_digests.as_slice(), &map);
    let ghost tags = records.tag_digests.deep_view();
    let ghost m = map@;
    let ghost rs = records.manifests.deep_view();
    let ghost ts = texts.deep_view();
    let ghost f = dead_manifest(tags, m, cutoff);
    let mut out: Vec<(String, u64)> = Vec::new();
    let mut i: usize = 0;
    assert(out.deep_view() =~= rs.take(0).filter_map(f));
    while i < records.manifests.len()
        invariant
            rs == records.manifests.deep_view(),
            tags == records.tag_digests.deep_view(),
            ts == texts.deep_view(),
            rs.len() == ts.len(),
            m == child_map(rs, ts, rs.len() as int),
            f == dead_manifest(tags, m, cutoff),
            forall|d: Seq<char>|
                #![trigger key1(d)]
                seen@.contains(key1(d)) <==> reached(tags, m, d),
            i <= records.manifests@.len(),
            forall|j: int| 0 <= j < i ==> !blocks(tags, m, #[trigger] rs[j], ts[j]),
            out.deep_view() == rs.take(i as int).filter_map(f),
        decreases records.manifests@.len() - i,
    {
        let r = &records.manifests[i];
        proof {
            lemma_filter_map_step(rs, f, i as int);
            assert(rs[i as int] == r.deep_view());
            assert(ts[i as int] == texts@[i as int].deep_view());
        }
        if let Some(d) = digest_in_path(r.path.as_str(), "/_manifests/", "_manifests/") {
            let alive = seen.contains(&d);
            assert(alive == reached(tags, m, d@));
            if alive && texts[i].is_none() && list_type(r.content_type.as_str()) {
                assert(blocks(tags, m, rs[i as int], ts[i as int]));
                let none: Vec<(String, u64)> = Vec::new();
                assert(none.deep_view() =~= Seq::<(Seq<char>, u64)>::empty());
                return none;
            }
            if !alive && !is_later(r.created_at, cutoff) {
                push_item(&mut out, (r.path.clone(), r.size));
            }
        }
        i = i + 1;
    }
    proof {
        lemma_take_all(rs);
    }
    out
}

/// What a collection deletes: path and size of each record.
#[derive(Debug)]
pub struct GcPlan {
    pub blobs: Vec<(String, u64)>,
    pub manifests: Vec<(String, u64)>,
}

/// Decide what a collection deletes. `texts` holds the text of each manifest, as
/// far as it could be read; `filter` is an empty filter for the layer digests;
/// records younger than `cutoff` are spared; untagged manifests are collected
/// only where `cleanup_untagged` says so. What an unreadable manifest may refer to
/// is spared.
pub fn docker_gc(
    records: &DockerRecords,
    texts: &[Option<String>],
    filter: Bloom<[u8]>,
    cutoff: Timestamp,
    cleanup_untagged: bool,
) -> (r: GcPlan)
    requires
        records.manifests@.len() == texts@.len(),
        filter_bytes(filter).len() > header_size(),
    ensures
        r.blobs.deep_view() == dead_layers(
            records.deep_view().blob_refs,
            texts.deep_view(),
            filter_bytes(filter),
            cutoff,
        ),
        r.manifests.deep_view() == (if cleanup_untagged {
            dead_manifest_list(
                records.deep_view().tag_digests,
                records.deep_view().manifests,
                texts.deep_view(),
                cutoff,
            )
        } else {
            Seq::empty()
        }),
{
    let blobs = if every_text_read(texts) {
        let mut layers = filter;
        fill_layer_filter(&mut layers, texts);
        dead_blobs(records.blob_refs.as_slice(), &layers, cutoff)
    } else {
        let none: Vec<(String, u64)> = Vec::new();
        assert(none.deep_view() =~= Seq::<(Seq<char>, u64)>::empty());
        none
    };
    let manifests = if cleanup_untagged {
        dead_manifests(records, texts, cutoff)
    } else {
        let none: Vec<(String, u64)> = Vec::new();
        assert(none.deep_view() =~= Seq::<(Seq<char>, u64)>::empty());
        none
    };
    GcPlan { blobs, manifests }
}

/// How many records a collection deletes; none in a dry run.
pub fn deleted_count(plan: &GcPlan, dry_run: bool) -> (r: u128)
    ensures
        r == if dry_run {
            0
        } else {
            plan.blobs@.len() + plan.manifests@.len()
        },
{
    if dry_run {
        0
    } else {
        plan.blobs.len() as u128 + plan.manifests.len() as u128
    }
}

/// The texts were read as they are: each is the true one, or could not be read.
pub open spec fn read_from(texts: Seq<Option<Seq<char>>>, truth: Seq<Seq<char>>) -> bool {
    texts.len() == truth.len() && forall|i: int|
        0 <= i < texts.len() ==> (#[trigger] texts[i] is None || texts[i] == Some(truth[i]))
}

/// A layer that some manifest of the repository refers to is never collected,
/// whether or not that manifest could be read. `truth` holds the true texts.
pub proof fn law_referenced_layer_is_kept(
    blob_refs: Seq<GcRecordView>,
    texts: Seq<Option<Seq<char>>>,
    truth: Seq<Seq<char>>,
    filter: Seq<u8>,
    cutoff: Timestamp,
    dead: (Seq<char>, u64),
    i: int,
)
    requires
        filter.len() > header_size(),
        read_from(texts, truth),
        dead_layers(blob_refs, texts, filter, cutoff).contains(dead),
        0 <= i < truth.len(),
    ensures
        path_digest(dead.0, "/_blobs/"@, "_blobs/"@) is Some,
        !text_refs(Some(truth[i])).contains(
            path_digest(dead.0, "/_blobs/"@, "_blobs/"@)->Some_0,
        ),
{
    let full = with_items(filter, spread(texts, text_items()));
    let f = dead_blob(full, cutoff);
    lemma_filter_map_contains(blob_refs, f, dead);
    let k = choose|k: int| 0 <= k < blob_refs.len() && #[trigger] f(blob_refs[k]) == Some(dead);
    let d = path_digest(dead.0, "/_blobs/"@, "_blobs/"@)->Some_0;
    assert(texts[i] == Some(truth[i]));
    if text_refs(texts[i]).contains(d) {
        lemma_reference_is_held(filter, texts, d, i);
    }
}

/// A digest that a text refers to is held by the filled filter.
proof fn lemma_reference_is_held(
    filter: Seq<u8>,
    texts: Seq<Option<Seq<char>>>,
    d: Seq<char>,
    i: int,
)
    requires
        filter.len() > header_size(),
        0 <= i < texts.len(),
        text_refs(texts[i]).contains(d),
    ensures
        holds(with_items(filter, spread(texts, text_items())), encode_utf8(d)),
{
    let refs = text_refs(texts[i]);
    let items = spread(texts, text_items());
    let k = choose|k: int| 0 <= k < refs.len() && refs[k] == d;
    assert(refs.map_values(as_item())[k] == encode_utf8(d));
    assert(text_items()(texts[i]).contains(encode_utf8(d)));
    lemma_spread_contains(texts, text_items(), encode_utf8(d));
    law_added_items_are_held(filter, items, encode_utf8(d));
}

/// The true texts, all of them read.
pub open spec fn fully_read(truth: Seq<Seq<char>>) -> Seq<Option<Seq<char>>> {
    truth.map_values(|t: Seq<char>| Some(t))
}

/// The children of a digest are those of the true texts where every list of that
/// digest was read.
proof fn lemma_children_agree(
    manifests: Seq<GcRecordView>,
    texts: Seq<Option<Seq<char>>>,
    truth: Seq<Seq<char>>,
    d: Seq<char>,
    n: int,
)
    requires
        manifests.len() == texts.len(),
        read_from(texts, truth),
        0 <= n <= manifests.len(),
        forall|i: int|
            0 <= i < n && is_list((#[trigger] manifests[i]).content_type) && path_digest(
                manifests[i].path,
                "/_manifests/"@,
                "_manifests/"@,
            ) == Some(d) ==> texts[i] is Some,
    ensures
        ascending(keys_of(child_map(manifests, texts, n))),
        ascending(keys_of(child_map(manifests, fully_read(truth), n))),
        lookup(child_map(manifests, texts, n), key1(d)) == lookup(
            child_map(manifests, fully_read(truth), n),
            key1(d),
        ),
    decreases n,
{
    if n > 0 {
        lemma_children_agree(manifests, texts, truth, d, n - 1);
        let a = child_map(manifests, texts, n - 1);
        let b = child_map(manifests, fully_read(truth), n - 1);
        let r = manifests[n - 1];
        assert(fully_read(truth)[n - 1] == Some(truth[n - 1]));
        match path_digest(r.path, "/_manifests/"@, "_manifests/"@) {
            Some(e) => {
                lemma_put(a, key1(e), text_refs(texts[n - 1]));
                lemma_put(b, key1(e), text_refs(fully_read(truth)[n - 1]));
                if key1(e) == key1(d) {
                    assert(key1(e)[0] == key1(d)[0]);
                    assert(e == d);
                }
                assert(lookup(put(a, key1(e), text_refs(texts[n - 1])), key1(d)) == if key1(d)
                    == key1(e) {
                    Some(text_refs(texts[n - 1]))
                } else {
                    lookup(a, key1(d))
                });
            },
            None => {},
        }
    } else {
        assert(keys_of(child_map(manifests, texts, n)).len() == 0);
        assert(keys_of(child_map(manifests, fully_read(truth), n)).len() == 0);
    }
}

/// Along a true walk from a tag every digest is reached, unless a tag reaches an
/// unreadable list.
proof fn lemma_true_walk_is_reached(
    tags: Seq<Seq<char>>,
    manifests: Seq<GcRecordView>,
    texts: Seq<Option<Seq<char>>>,
    truth: Seq<Seq<char>>,
    walk: Seq<Seq<char>>,
    i: int,
)
    requires
        manifests.len() == texts.len(),
        read_from(texts, truth),
        !is_blocked(
            tags,
            child_map(manifests, texts, manifests.len() as int),
            manifests,
            texts,
        ),
        is_walk(
            tags,
            child_map(manifests, fully_read(truth), manifests.len() as int),
            walk,
        ),
        0 <= i < walk.len(),
    ensures
        reached(tags, child_map(manifests, texts, manifests.len() as int), walk[i]),
    decreases i,
{
    let n = manifests.len() as int;
    let map = child_map(manifests, texts, n);
    let true_map = child_map(manifests, fully_read(truth), n);
    if i == 0 {
        lemma_tag_reached(tags, map, walk[0]);
    } else {
        lemma_true_walk_is_reached(tags, manifests, texts, truth, walk, i - 1);
        let p = walk[i - 1];
        assert forall|j: int|
            0 <= j < n && is_list((#[trigger] manifests[j]).content_type) && path_digest(
                manifests[j].path,
                "/_manifests/"@,
                "_manifests/"@,
            ) == Some(p) implies texts[j] is Some by {
            if texts[j] is None {
                assert(blocks(tags, map, manifests[j], texts[j]));
            }
        }
        lemma_children_agree(manifests, texts, truth, p, n);
        assert(children(true_map, p).contains(walk[i]));
        assert(children(map, p) == children(true_map, p));
        lemma_child_reached(tags, map, p, walk[i]);
    }
}

/// A manifest that a tag truly leads to, through any number of manifest lists, is
/// never collected, whether or not those lists could be read. `truth` holds the
/// true texts.
pub proof fn law_tagged_manifest_is_kept(
    tags: Seq<Seq<char>>,
    manifests: Seq<GcRecordView>,
    texts: Seq<Option<Seq<char>>>,
    truth: Seq<Seq<char>>,
    cutoff: Timestamp,
    dead: (Seq<char>, u64),
)
    requires
        manifests.len() == texts.len(),
        read_from(texts, truth),
        dead_manifest_list(tags, manifests, texts, cutoff).contains(dead),
    ensures
        path_digest(dead.0, "/_manifests/"@, "_manifests/"@) is Some,
        !reached(
            tags,
            child_map(manifests, fully_read(truth), manifests.len() as int),
            path_digest(dead.0, "/_manifests/"@, "_manifests/"@)->Some_0,
        ),
{
    let n = manifests.len() as int;
    let map = child_map(manifests, texts, n);
    let true_map = child_map(manifests, fully_read(truth), n);
    let f = dead_manifest(tags, map, cutoff);
    lemma_filter_map_contains(manifests, f, dead);
    let k = choose|k: int| 0 <= k < manifests.len() && #[trigger] f(manifests[k]) == Some(dead);
    let d = path_digest(dead.0, "/_manifests/"@, "_manifests/"@)->Some_0;
    if reached(tags, true_map, d) {
        let walk = choose|walk: Seq<Seq<char>>| #[trigger]
            is_walk(tags, true_map, walk) && walk.last() == d;
        lemma_true_walk_is_reached(tags, manifests, texts, truth, walk, walk.len() - 1);
    }
}

/// A manifest that a tag names, or that a kept manifest list leads to, is never
/// collected.
pub proof fn law_reached_manifest_is_kept(
    tags: Seq<Seq<char>>,
    map: Seq<(Seq<Seq<char>>, Seq<Seq<char>>)>,
    cutoff: Timestamp,
    r: GcRecordView,
)
    requires
        path_digest(r.path, "/_manifests/"@, "_manifests/"@) matches Some(d) && (tags.contains(d)
            || exists|p: Seq<char>| #[trigger] reached(tags, map, p) && children(map, p).contains(d)),
    ensures
        dead_manifest(tags, map, cutoff)(r) is None,
{
    let d = path_digest(r.path, "/_manifests/"@, "_manifests/"@)->Some_0;
    if tags.contains(d) {
        lemma_tag_reached(tags, map, d);
    } else {
        let p = choose|p: Seq<char>| #[trigger]
            reached(tags, map, p) && children(map, p).contains(d);
        lemma_child_reached(tags, map, p, d);
    }
}

/// An untagged manifest list protects neither itself nor its children: an old
/// manifest that is only led to by lists that are not reached is collected, in
/// the same pass.
pub proof fn law_orphan_list_protects_nothing(
    tags: Seq<Seq<char>>,
    map: Seq<(Seq<Seq<char>>, Seq<Seq<char>>)>,
    cutoff: Timestamp,
    r: GcRecordView,
)
    requires
        !later(r.created_at, cutoff),
        path_digest(r.path, "/_manifests/"@, "_manifests/"@) matches Some(d) && !tags.contains(d)
            && forall|p: Seq<char>| #[trigger]
            children(map, p).contains(d) ==> !reached(tags, map, p),
    ensures
        dead_manifest(tags, map, cutoff)(r) == Some((r.path, r.size)),
{
    let d = path_digest(r.path, "/_manifests/"@, "_manifests/"@)->Some_0;
    if reached(tags, map, d) {
        let walk = choose|walk: Seq<Seq<char>>| #[trigger]
            is_walk(tags, map, walk) && walk.last() == d;
        if walk.len() == 1 {
            assert(tags.contains(walk[0]));
        } else {
            let n = walk.len() - 1;
            assert(children(map, walk[n - 1]).contains(walk[n]));
            let prefix = walk.drop_last();
            assert forall|i: int| 0 < i < prefix.len() implies children(
                map,
                prefix[i - 1],
            ).contains(#[trigger] prefix[i]) by {
                assert(children(map, walk[i - 1]).contains(walk[i]));
            }
            assert(is_walk(tags, map, prefix));
            assert(prefix.last() == walk[n - 1]);
            assert(reached(tags, map, walk[n - 1]));
        }
    }
}

/// A record within the grace period is never collected.
pub proof fn law_recent_record_is_kept(
    filter: Seq<u8>,
    tags: Seq<Seq<char>>,
    map: Seq<(Seq<Seq<char>>, Seq<Seq<char>>)>,
    cutoff: Timestamp,
    r: GcRecordView,
)
    requires
        later(r.created_at, cutoff),
    ensures
        dead_blob(filter, cutoff)(r) is None,
        dead_manifest(tags, map, cutoff)(r) is None,
{
}

} // verus!
