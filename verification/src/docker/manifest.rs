//! What a Docker or OCI manifest refers to.
use crate::json::{items_member, json_document, member, parse_json, string_member, Json, JsonView};
use crate::seqs::{lemma_filter_map_step, lemma_take_all, push_all, push_item};
use vstd::prelude::*;

verus! {

/// Takes the digest of an entry that has one.
pub open spec fn digest_of() -> spec_fn(JsonView) -> Option<Seq<char>> {
    |e: JsonView| string_member(e, "digest"@)
}

/// The digests of the entries of a list member, none where there is no list.
pub open spec fn listed_digests(j: JsonView, name: Seq<char>) -> Seq<Seq<char>> {
    match items_member(j, name) {
        Some(es) => es.filter_map(digest_of()),
        None => Seq::empty(),
    }
}

/// The config digest of an image manifest.
pub open spec fn config_of(j: JsonView) -> Option<Seq<char>> {
    match member(j, "config"@) {
        Some(c) => string_member(c, "digest"@),
        None => None,
    }
}

/// The config digest as a list.
pub open spec fn config_list(j: JsonView) -> Seq<Seq<char>> {
    match config_of(j) {
        Some(d) => seq![d],
        None => Seq::empty(),
    }
}

/// Every digest that a manifest refers to: its config, its layers, and the
/// children of a manifest list.
pub open spec fn all_refs(j: JsonView) -> Seq<Seq<char>> {
    config_list(j) + listed_digests(j, "layers"@) + listed_digests(j, "manifests"@)
}

/// The child manifests and the blobs of a manifest. A manifest list has children
/// only, an image manifest blobs only.
pub open spec fn classified(j: JsonView) -> (Seq<Seq<char>>, Seq<Seq<char>>) {
    if items_member(j, "manifests"@) is Some {
        (listed_digests(j, "manifests"@), Seq::empty())
    } else {
        (Seq::empty(), config_list(j) + listed_digests(j, "layers"@))
    }
}

/// The digest of the first child of a manifest list.
pub open spec fn first_child(j: JsonView) -> Option<Seq<char>> {
    match items_member(j, "manifests"@) {
        Some(es) => if es.len() > 0 {
            string_member(es[0], "digest"@)
        } else {
            None
        },
        None => None,
    }
}

/// The digests of the entries of a list member.
fn list_digests(j: &Json, name: &str) -> (out: Vec<String>)
    ensures
        out.deep_view() == listed_digests(j.deep_view(), name@),
{
    let mut out: Vec<String> = Vec::new();
    match j.get_array(name) {
        Some(es) => {
            let ghost all = es.deep_view();
            let mut i: usize = 0;
            assert(out.deep_view() =~= all.take(0).filter_map(digest_of()));
            while i < es.len()
                invariant
                    all == es.deep_view(),
                    i <= es@.len(),
                    out.deep_view() == all.take(i as int).filter_map(digest_of()),
                decreases es@.len() - i,
            {
                proof {
                    lemma_filter_map_step(all, digest_of(), i as int);
                }
                if let Some(d) = es[i].get_str("digest") {
                    push_item(&mut out, d);
                }
                i = i + 1;
            }
            proof {
                lemma_take_all(all);
            }
        },
        None => {
            assert(out.deep_view() =~= Seq::<Seq<char>>::empty());
        },
    }
    out
}

/// The config digest of an image manifest.
pub fn config_digest(j: &Json) -> (r: Option<String>)
    ensures
        r.deep_view() == config_of(j.deep_view()),
{
    match j.get("config") {
        Some(c) => c.get_str("digest"),
        None => None,
    }
}

/// The config digest as a list.
fn config_digests(j: &Json) -> (out: Vec<String>)
    ensures
        out.deep_view() == config_list(j.deep_view()),
{
    let mut out: Vec<String> = Vec::new();
    if let Some(d) = config_digest(j) {
        out.push(d);
    }
    assert(out.deep_view() =~= config_list(j.deep_view()));
    out
}

/// The digest of the first child of a manifest list or index: where the build
/// date of a multi-arch image is looked up.
pub fn first_child_digest(j: &Json) -> (r: Option<String>)
    ensures
        r.deep_view() == first_child(j.deep_view()),
{
    match j.get_array("manifests") {
        Some(es) => if es.len() > 0 {
            es[0].get_str("digest")
        } else {
            None
        },
        None => None,
    }
}

/// The build timestamp of an image config.
pub fn created_of_config(j: &Json) -> (r: Option<String>)
    ensures
        r.deep_view() == string_member(j.deep_view(), "created"@),
{
    j.get_str("created")
}

/// Every digest that a parsed manifest refers to.
pub fn manifest_refs(j: &Json) -> (out: Vec<String>)
    ensures
        out.deep_view() == all_refs(j.deep_view()),
{
    let mut out = config_digests(j);
    push_all(&mut out, list_digests(j, "layers"));
    push_all(&mut out, list_digests(j, "manifests"));
    out
}

/// Every digest that a manifest refers to; none where it is not JSON.
pub fn extract_manifest_refs(json: &str) -> (out: Vec<String>)
    ensures
        out.deep_view() == (match json_document(vstd::utf8::encode_utf8(json@)) {
            Some(j) => all_refs(j),
            None => Seq::empty(),
        }),
{
    match parse_json(json.as_bytes()) {
        Some(j) => manifest_refs(&j),
        None => {
            let out: Vec<String> = Vec::new();
            assert(out.deep_view() =~= Seq::<Seq<char>>::empty());
            out
        },
    }
}

/// The child manifests and the blobs of a parsed manifest.
pub fn classify_parsed(j: &Json) -> (r: (Vec<String>, Vec<String>))
    ensures
        r.0.deep_view() == classified(j.deep_view()).0,
        r.1.deep_view() == classified(j.deep_view()).1,
{
    let none: Vec<String> = Vec::new();
    assert(none.deep_view() =~= Seq::<Seq<char>>::empty());
    if j.get_array("manifests").is_some() {
        (list_digests(j, "manifests"), none)
    } else {
        let mut blobs = config_digests(j);
        push_all(&mut blobs, list_digests(j, "layers"));
        (none, blobs)
    }
}

/// Classify a manifest into its child manifests and its blobs; neither where it
/// is not JSON.
pub fn classify_manifest(json: &[u8]) -> (r: (Vec<String>, Vec<String>))
    ensures
        (r.0.deep_view(), r.1.deep_view()) == (match json_document(json@) {
            Some(j) => classified(j),
            None => (Seq::empty(), Seq::empty()),
        }),
{
    match parse_json(json) {
        Some(j) => classify_parsed(&j),
        None => {
            let a: Vec<String> = Vec::new();
            let b: Vec<String> = Vec::new();
            assert(a.deep_view() =~= Seq::<Seq<char>>::empty());
            assert(b.deep_view() =~= Seq::<Seq<char>>::empty());
            (a, b)
        },
    }
}

/// What to look up next to learn when an image was built.
#[derive(Debug, PartialEq, Eq)]
pub enum DateStep {
    /// The manifest of this digest, the first child of a manifest list.
    Manifest(String),
    /// The image config of this digest.
    Config(String),
    /// There is nothing more to look up.
    Unknown,
}

/// The contents of a [`DateStep`].
pub enum DateStepView {
    Manifest(Seq<char>),
    Config(Seq<char>),
    Unknown,
}

impl DeepView for DateStep {
    type V = DateStepView;

    open spec fn deep_view(&self) -> DateStepView {
        match self {
            DateStep::Manifest(d) => DateStepView::Manifest(d@),
            DateStep::Config(d) => DateStepView::Config(d@),
            DateStep::Unknown => DateStepView::Unknown,
        }
    }
}

/// The step after a manifest was read: one level down a manifest list, then the
/// config.
pub open spec fn step_after(j: JsonView, descended: bool) -> DateStepView {
    if !descended && first_child(j) is Some {
        DateStepView::Manifest(first_child(j)->Some_0)
    } else {
        match config_of(j) {
            Some(d) => DateStepView::Config(d),
            None => DateStepView::Unknown,
        }
    }
}

/// The step after a parsed manifest.
pub fn date_step(j: &Json, descended: bool) -> (r: DateStep)
    ensures
        r.deep_view() == step_after(j.deep_view(), descended),
{
    if !descended {
        if let Some(d) = first_child_digest(j) {
            return DateStep::Manifest(d);
        }
    }
    match config_digest(j) {
        Some(d) => DateStep::Config(d),
        None => DateStep::Unknown,
    }
}

/// The step after a manifest was read; `descended` tells whether it is already
/// the child of a manifest list.
pub fn date_step_after(body: &[u8], descended: bool) -> (r: DateStep)
    ensures
        r.deep_view() == (match json_document(body@) {
            Some(j) => step_after(j, descended),
            None => DateStepView::Unknown,
        }),
{
    match parse_json(body) {
        Some(j) => date_step(&j, descended),
        None => DateStep::Unknown,
    }
}

/// The build timestamp that an image config gives.
pub fn config_created(body: &[u8]) -> (r: Option<String>)
    ensures
        r.deep_view() == (match json_document(body@) {
            Some(j) => string_member(j, "created"@),
            None => None,
        }),
{
    match parse_json(body) {
        Some(j) => created_of_config(&j),
        None => None,
    }
}

} // verus!
