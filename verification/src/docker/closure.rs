//! The manifest closure of a tag: every manifest that its root manifest leads to,
//! and every config and layer that those refer to.
use crate::docker::manifest::{classified, classify_manifest};
use crate::error::{DepotError, DepotErrorView};
use crate::json::json_document;
use crate::ordered::{
    ascending, insert_key, insert_keys, insert_texts, key1, lemma_insert_key, lemma_insert_keys,
    lemma_text_keys, text_keys, KeySet,
};
use crate::seqs::{push_all, push_item, result_view};
use vstd::prelude::*;

verus! {

/// A walk through the manifests of an image.
#[derive(Debug)]
pub struct ClosureWalk {
    /// Manifests still to be visited, the next one last.
    pub stack: Vec<String>,
    /// Manifests that were handed out.
    pub seen: KeySet<String>,
    /// Manifests that were read, in the order of the visit.
    pub manifests: Vec<String>,
    /// Configs and layers that the manifests refer to.
    pub blobs: KeySet<String>,
}

/// The contents of a [`ClosureWalk`].
#[verifier::ext_equal]
pub struct WalkView {
    pub stack: Seq<Seq<char>>,
    pub seen: Seq<Seq<Seq<char>>>,
    pub manifests: Seq<Seq<char>>,
    pub blobs: Seq<Seq<Seq<char>>>,
}

impl DeepView for ClosureWalk {
    type V = WalkView;

    open spec fn deep_view(&self) -> WalkView {
        WalkView {
            stack: self.stack.deep_view(),
            seen: self.seen@,
            manifests: self.manifests.deep_view(),
            blobs: self.blobs@,
        }
    }
}

/// A walk that begins at a manifest.
pub open spec fn walk_from(root: Seq<char>) -> WalkView {
    WalkView { stack: seq![root], seen: Seq::empty(), manifests: Seq::empty(), blobs: Seq::empty() }
}

/// The topmost manifest that was not handed out, taken from the stack with all
/// that stood above it.
pub open spec fn next_of(w: WalkView) -> (Option<Seq<char>>, WalkView)
    decreases w.stack.len(),
{
    if w.stack.len() == 0 {
        (None, w)
    } else {
        let d = w.stack.last();
        let rest = WalkView { stack: w.stack.drop_last(), ..w };
        if w.seen.contains(key1(d)) {
            next_of(rest)
        } else {
            (Some(d), WalkView { seen: insert_key(w.seen, key1(d)), ..rest })
        }
    }
}

/// The children and the blobs of a manifest's text.
pub open spec fn parts_of(json: Seq<u8>) -> (Seq<Seq<char>>, Seq<Seq<char>>) {
    match json_document(json) {
        Some(j) => classified(j),
        None => (Seq::empty(), Seq::empty()),
    }
}

/// The walk after a manifest with these parts was read.
pub open spec fn fed(
    w: WalkView,
    digest: Seq<char>,
    parts: (Seq<Seq<char>>, Seq<Seq<char>>),
) -> WalkView {
    WalkView {
        stack: w.stack + parts.0,
        seen: w.seen,
        manifests: w.manifests.push(digest),
        blobs: insert_keys(w.blobs, text_keys(parts.1)),
    }
}

/// The error for a manifest that a tag needs and the repository does not have.
pub open spec fn missing_manifest(
    digest: Seq<char>,
    tag: Seq<char>,
    repo: Seq<char>,
) -> DepotErrorView {
    DepotErrorView::DataIntegrity(
        "manifest '"@ + digest + "' referenced by tag '"@ + tag + "' is missing in '"@ + repo
            + "'"@,
    )
}

impl ClosureWalk {
    /// Begin at a manifest.
    pub fn start(root: &str) -> (r: Self)
        ensures
            r.deep_view() == walk_from(root@),
    {
        let mut stack: Vec<String> = Vec::new();
        assert(stack.deep_view() =~= Seq::<Seq<char>>::empty());
        push_item(&mut stack, root.to_string());
        let manifests: Vec<String> = Vec::new();
        assert(manifests.deep_view() =~= Seq::<Seq<char>>::empty());
        let r = ClosureWalk { stack, seen: KeySet::new(), manifests, blobs: KeySet::new() };
        assert(r.deep_view().stack =~= seq![root@]);
        r
    }

    /// The next manifest to read, if any is left.
    pub fn next(&mut self) -> (r: Option<String>)
        ensures
            (r.deep_view(), final(self).deep_view()) == next_of(old(self).deep_view()),
    {
        while self.stack.len() > 0
            invariant
                next_of(self.deep_view()) == next_of(old(self).deep_view()),
            decreases self.stack@.len(),
        {
            let ghost before = self.deep_view();
            let top = self.stack.pop();
            proof {
                assert(self.stack.deep_view() =~= before.stack.drop_last());
            }
            if let Some(d) = top {
                assert(before.stack.last() == d@);
                if !self.seen.contains(&d) {
                    self.seen.insert(d.clone());
                    assert(self.deep_view() == next_of(before).1);
                    return Some(d);
                }
            }
            assert(self.deep_view() == (WalkView { stack: before.stack.drop_last(), ..before }));
        }
        None
    }

    /// Take in the text of a manifest that was handed out: its children are to be
    /// visited, its blobs belong to the closure. It is an error if there is none.
    pub fn feed(&mut self, digest: String, json: Option<&[u8]>, tag: &str, repo: &str) -> (r: Result<
        (),
        DepotError,
    >)
        ensures
            result_view(r) == match json {
                Some(_) => Ok::<(), DepotErrorView>(()),
                None => Err(missing_manifest(digest@, tag@, repo@)),
            },
            final(self).deep_view() == match json {
                Some(j) => fed(old(self).deep_view(), digest@, parts_of(j@)),
                None => old(self).deep_view(),
            },
    {
        match json {
            Some(j) => {
                let (children, blobs) = classify_manifest(j);
                push_item(&mut self.manifests, digest);
                push_all(&mut self.stack, children);
                insert_texts(&mut self.blobs, blobs.as_slice());
                Ok(())
            },
            None => {
                let mut m = "manifest '".to_string();
                m.append(digest.as_str());
                m.append("' referenced by tag '");
                m.append(tag);
                m.append("' is missing in '");
                m.append(repo);
                m.append("'");
                Err(DepotError::DataIntegrity(m))
            },
        }
    }
}

/// A way through the manifests: each is a child of the one before. `docs` gives
/// the children and the blobs of each manifest.
pub open spec fn is_way(
    docs: spec_fn(Seq<char>) -> (Seq<Seq<char>>, Seq<Seq<char>>),
    way: Seq<Seq<char>>,
) -> bool {
    way.len() > 0 && forall|i: int|
        0 < i < way.len() ==> docs(way[i - 1]).0.contains(#[trigger] way[i])
}

/// A manifest leads to another, through any number of manifest lists.
pub open spec fn leads_to(
    docs: spec_fn(Seq<char>) -> (Seq<Seq<char>>, Seq<Seq<char>>),
    root: Seq<char>,
    d: Seq<char>,
) -> bool {
    exists|way: Seq<Seq<char>>| #[trigger]
        is_way(docs, way) && way[0] == root && way.last() == d
}

/// Some manifest of a list refers to a blob.
pub open spec fn refers(
    docs: spec_fn(Seq<char>) -> (Seq<Seq<char>>, Seq<Seq<char>>),
    manifests: Seq<Seq<char>>,
    b: Seq<char>,
) -> bool {
    exists|i: int| 0 <= i < manifests.len() && (#[trigger] docs(manifests[i])).1.contains(b)
}

/// What holds of a walk at any time. `pending` is the manifest that was handed
/// out and not yet read.
pub open spec fn walk_holds(
    w: WalkView,
    pending: Option<Seq<char>>,
    docs: spec_fn(Seq<char>) -> (Seq<Seq<char>>, Seq<Seq<char>>),
    root: Seq<char>,
) -> bool {
    &&& ascending(w.seen)
    &&& ascending(w.blobs)
    &&& w.manifests.no_duplicates()
    &&& w.seen.contains(key1(root)) || w.stack.contains(root)
    &&& forall|d: Seq<char>| #[trigger] w.stack.contains(d) ==> leads_to(docs, root, d)
    &&& forall|d: Seq<char>| #[trigger] w.manifests.contains(d) ==> leads_to(docs, root, d)
    &&& forall|d: Seq<char>| #[trigger]
        w.seen.contains(key1(d)) <==> w.manifests.contains(d) || pending == Some(d)
    &&& pending matches Some(p) ==> leads_to(docs, root, p) && !w.manifests.contains(p)
    &&& forall|i: int, c: Seq<char>|
        0 <= i < w.manifests.len() && #[trigger] docs(w.manifests[i]).0.contains(c)
            ==> w.seen.contains(key1(c)) || w.stack.contains(c)
    &&& forall|b: Seq<char>| #[trigger]
        w.blobs.contains(key1(b)) <==> refers(docs, w.manifests, b)
}

/// Single-text keys tell their texts apart.
proof fn lemma_key1(a: Seq<char>, b: Seq<char>)
    ensures
        key1(a) == key1(b) <==> a == b,
{
    if key1(a) == key1(b) {
        assert(key1(a)[0] == key1(b)[0]);
    }
}

/// A manifest leads to itself.
proof fn lemma_leads_to_itself(
    docs: spec_fn(Seq<char>) -> (Seq<Seq<char>>, Seq<Seq<char>>),
    root: Seq<char>,
)
    ensures
        leads_to(docs, root, root),
{
    let way = seq![root];
    assert(is_way(docs, way));
    assert(way.last() == root);
}

/// Where a manifest leads, it leads to the children there.
proof fn lemma_leads_to_child(
    docs: spec_fn(Seq<char>) -> (Seq<Seq<char>>, Seq<Seq<char>>),
    root: Seq<char>,
    d: Seq<char>,
    c: Seq<char>,
)
    requires
        leads_to(docs, root, d),
        docs(d).0.contains(c),
    ensures
        leads_to(docs, root, c),
{
    let way = choose|way: Seq<Seq<char>>| #[trigger]
        is_way(docs, way) && way[0] == root && way.last() == d;
    let longer = way.push(c);
    assert forall|i: int| 0 < i < longer.len() implies docs(longer[i - 1]).0.contains(
        #[trigger] longer[i],
    ) by {
        if i < way.len() {
            assert(longer[i] == way[i]);
            assert(longer[i - 1] == way[i - 1]);
        }
    }
    assert(is_way(docs, longer));
    assert(longer[0] == root && longer.last() == c);
}

/// What holds of a walk holds when it begins.
pub proof fn law_walk_begins(
    docs: spec_fn(Seq<char>) -> (Seq<Seq<char>>, Seq<Seq<char>>),
    root: Seq<char>,
)
    ensures
        walk_holds(walk_from(root), None, docs, root),
{
    let w = walk_from(root);
    lemma_leads_to_itself(docs, root);
    assert(w.stack[0] == root);
    assert forall|d: Seq<char>| #[trigger] w.stack.contains(d) implies leads_to(docs, root, d) by {
        assert(d == root);
    }
}

/// What holds of a walk holds after the next manifest was handed out.
pub proof fn law_walk_hands_out(
    w: WalkView,
    docs: spec_fn(Seq<char>) -> (Seq<Seq<char>>, Seq<Seq<char>>),
    root: Seq<char>,
)
    requires
        walk_holds(w, None, docs, root),
    ensures
        walk_holds(next_of(w).1, next_of(w).0, docs, root),
        next_of(w).0 is None ==> next_of(w).1.stack.len() == 0,
    decreases w.stack.len(),
{
    if w.stack.len() > 0 {
        let d = w.stack.last();
        let rest = WalkView { stack: w.stack.drop_last(), ..w };
        assert forall|x: Seq<char>| #[trigger] w.stack.contains(x) implies rest.stack.contains(x)
            || x == d by {
            let i = choose|i: int| 0 <= i < w.stack.len() && w.stack[i] == x;
            if i < rest.stack.len() {
                assert(rest.stack[i] == x);
            }
        }
        assert forall|x: Seq<char>| #[trigger] rest.stack.contains(x) implies w.stack.contains(
            x,
        ) by {
            let i = choose|i: int| 0 <= i < rest.stack.len() && rest.stack[i] == x;
            assert(w.stack[i] == x);
        }
        assert(w.stack[w.stack.len() - 1] == d);
        assert(w.stack.contains(d));
        if w.seen.contains(key1(d)) {
            assert forall|i: int, c: Seq<char>|
                0 <= i < rest.manifests.len() && #[trigger] docs(
                    rest.manifests[i],
                ).0.contains(c) implies rest.seen.contains(key1(c)) || rest.stack.contains(c) by {
                assert(w.manifests[i] == rest.manifests[i]);
                assert(w.seen.contains(key1(c)) || w.stack.contains(c));
            }
            assert(walk_holds(rest, None, docs, root));
            law_walk_hands_out(rest, docs, root);
        } else {
            let after = WalkView { seen: insert_key(w.seen, key1(d)), ..rest };
            lemma_insert_key(w.seen, key1(d));
            assert forall|x: Seq<char>| #[trigger]
                after.seen.contains(key1(x)) <==> after.manifests.contains(x) || Some(d) == Some(
                x,
            ) by {
                lemma_key1(x, d);
                assert(w.seen.contains(key1(x)) <==> w.manifests.contains(x));
            }
            assert(!w.manifests.contains(d)) by {
                assert(w.seen.contains(key1(d)) <==> w.manifests.contains(d));
            }
            assert forall|i: int, c: Seq<char>|
                0 <= i < after.manifests.len() && #[trigger] docs(
                    after.manifests[i],
                ).0.contains(c) implies after.seen.contains(key1(c)) || after.stack.contains(
                c,
            ) by {
                assert(w.manifests[i] == after.manifests[i]);
                assert(w.seen.contains(key1(c)) || w.stack.contains(c));
                assert(after.seen.contains(key1(d)));
            }
            assert(after.seen.contains(key1(root)) || after.stack.contains(root)) by {
                assert(after.seen.contains(key1(d)));
            }
        }
    }
}

/// What holds of a walk holds after the manifest that was handed out was read.
pub proof fn law_walk_reads(
    w: WalkView,
    digest: Seq<char>,
    docs: spec_fn(Seq<char>) -> (Seq<Seq<char>>, Seq<Seq<char>>),
    root: Seq<char>,
)
    requires
        walk_holds(w, Some(digest), docs, root),
    ensures
        walk_holds(fed(w, digest, docs(digest)), None, docs, root),
{
    let parts = docs(digest);
    let after = fed(w, digest, parts);
    lemma_insert_keys(w.blobs, text_keys(parts.1));
    assert forall|x: Seq<char>| #[trigger] after.stack.contains(x) <==> w.stack.contains(x)
        || parts.0.contains(x) by {
        if w.stack.contains(x) {
            let i = choose|i: int| 0 <= i < w.stack.len() && w.stack[i] == x;
            assert(after.stack[i] == x);
        }
        if parts.0.contains(x) {
            let i = choose|i: int| 0 <= i < parts.0.len() && parts.0[i] == x;
            assert(after.stack[w.stack.len() + i] == x);
        }
        if after.stack.contains(x) {
            let i = choose|i: int| 0 <= i < after.stack.len() && after.stack[i] == x;
            if i < w.stack.len() {
                assert(w.stack[i] == x);
            } else {
                assert(parts.0[i - w.stack.len()] == x);
            }
        }
    }
    assert forall|x: Seq<char>| #[trigger] after.manifests.contains(x) <==> w.manifests.contains(x)
        || x == digest by {
        if w.manifests.contains(x) {
            let i = choose|i: int| 0 <= i < w.manifests.len() && w.manifests[i] == x;
            assert(after.manifests[i] == x);
        }
        if x == digest {
            assert(after.manifests[w.manifests.len() as int] == x);
        }
        if after.manifests.contains(x) {
            let i = choose|i: int| 0 <= i < after.manifests.len() && after.manifests[i] == x;
            if i < w.manifests.len() {
                assert(w.manifests[i] == x);
            }
        }
    }
    assert(after.manifests.no_duplicates()) by {
        assert forall|i: int, j: int|
            0 <= i < after.manifests.len() && 0 <= j < after.manifests.len() && i
                != j implies after.manifests[i] != after.manifests[j] by {
            if i < w.manifests.len() {
                assert(w.manifests.contains(w.manifests[i]));
            }
            if j < w.manifests.len() {
                assert(w.manifests.contains(w.manifests[j]));
            }
        }
    }
    assert forall|d: Seq<char>| #[trigger] after.stack.contains(d) implies leads_to(
        docs,
        root,
        d,
    ) by {
        if !w.stack.contains(d) {
            lemma_leads_to_child(docs, root, digest, d);
        }
    }
    assert forall|i: int, c: Seq<char>|
        0 <= i < after.manifests.len() && #[trigger] docs(after.manifests[i]).0.contains(
            c,
        ) implies after.seen.contains(key1(c)) || after.stack.contains(c) by {
        if i < w.manifests.len() {
            assert(docs(w.manifests[i]).0.contains(c));
            assert(w.seen.contains(key1(c)) || w.stack.contains(c));
        }
        assert(after.stack.contains(c) <==> w.stack.contains(c) || parts.0.contains(c));
    }
    assert forall|b: Seq<char>| #[trigger]
        after.blobs.contains(key1(b)) <==> refers(docs, after.manifests, b) by {
        lemma_text_keys(parts.1, b);
        assert(w.blobs.contains(key1(b)) <==> refers(docs, w.manifests, b));
        if refers(docs, w.manifests, b) {
            let i = choose|i: int|
                0 <= i < w.manifests.len() && (#[trigger] docs(w.manifests[i])).1.contains(b);
            assert(docs(after.manifests[i]).1.contains(b));
        }
        if parts.1.contains(b) {
            assert(docs(after.manifests[w.manifests.len() as int]).1.contains(b));
        }
        if refers(docs, after.manifests, b) {
            let i = choose|i: int|
                0 <= i < after.manifests.len() && (#[trigger] docs(after.manifests[i])).1.contains(
                    b,
                );
            if i < w.manifests.len() {
                assert(docs(w.manifests[i]).1.contains(b));
            }
        }
    }
    assert forall|d: Seq<char>| #[trigger]
        after.seen.contains(key1(d)) <==> after.manifests.contains(d) by {
        assert(w.seen.contains(key1(d)) <==> w.manifests.contains(d) || Some(digest) == Some(d));
    }
    assert(after.seen.contains(key1(root)) || after.stack.contains(root));
}

/// Along a way from the root, every manifest was read by a finished walk.
proof fn lemma_way_is_read(
    w: WalkView,
    docs: spec_fn(Seq<char>) -> (Seq<Seq<char>>, Seq<Seq<char>>),
    root: Seq<char>,
    way: Seq<Seq<char>>,
    n: int,
)
    requires
        walk_holds(w, None, docs, root),
        w.stack.len() == 0,
        is_way(docs, way),
        way[0] == root,
        0 <= n < way.len(),
    ensures
        w.manifests.contains(way[n]),
    decreases n,
{
    if n == 0 {
        assert(w.seen.contains(key1(root)));
    } else {
        lemma_way_is_read(w, docs, root, way, n - 1);
        let i = choose|i: int| 0 <= i < w.manifests.len() && w.manifests[i] == way[n - 1];
        assert(docs(w.manifests[i]).0.contains(way[n]));
        assert(w.seen.contains(key1(way[n])));
    }
}

/// A finished walk has read each manifest that the root leads to, once, and no
/// other, and holds the blobs that those refer to, and no others.
pub proof fn law_finished_walk_is_the_closure(
    w: WalkView,
    docs: spec_fn(Seq<char>) -> (Seq<Seq<char>>, Seq<Seq<char>>),
    root: Seq<char>,
)
    requires
        walk_holds(w, None, docs, root),
        w.stack.len() == 0,
    ensures
        w.manifests.no_duplicates(),
        forall|d: Seq<char>| #[trigger] w.manifests.contains(d) <==> leads_to(docs, root, d),
        forall|b: Seq<char>| #[trigger]
            w.blobs.contains(key1(b)) <==> refers(docs, w.manifests, b),
{
    assert forall|d: Seq<char>| leads_to(docs, root, d) implies #[trigger] w.manifests.contains(
        d,
    ) by {
        let way = choose|way: Seq<Seq<char>>| #[trigger]
            is_way(docs, way) && way[0] == root && way.last() == d;
        lemma_way_is_read(w, docs, root, way, way.len() - 1);
    }
}

} // verus!
