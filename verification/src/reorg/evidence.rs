//! The evidence behind a review: build dates, digests and upstream presence.
use crate::reorg::plan::{TagRef, TagRefView};
use crate::reorg::rules::MismatchPolicy;
use crate::text::{
    byte_len, byte_prefix, chars_of, compare_text, first_bytes, lemma_byte_len_grows,
    lemma_text_lt_irreflexive, lemma_text_lt_transitive, split_first, split_once, text_lt,
    text_order, width_of, Order,
};
use vstd::prelude::*;

verus! {

/// A reconcile mismatch: the tag exists in `check_repo` with a different digest.
/// Carries the evidence that the plan shows and the `mismatch` group acts on.
#[derive(Debug)]
pub struct MismatchInfo {
    pub tag: TagRef,
    pub check_repo: String,
    pub source_digest: String,
    pub check_digest: String,
    /// Build date of the source copy, if known.
    pub source_built: Option<String>,
    /// Build date of the check copy, if known.
    pub check_built: Option<String>,
    pub on_mismatch: MismatchPolicy,
}

/// The contents of a [`MismatchInfo`].
#[verifier::ext_equal]
pub struct MismatchInfoView {
    pub tag: TagRefView,
    pub check_repo: Seq<char>,
    pub source_digest: Seq<char>,
    pub check_digest: Seq<char>,
    pub source_built: Option<Seq<char>>,
    pub check_built: Option<Seq<char>>,
    pub on_mismatch: MismatchPolicy,
}

impl DeepView for MismatchInfo {
    type V = MismatchInfoView;

    open spec fn deep_view(&self) -> MismatchInfoView {
        MismatchInfoView {
            tag: self.tag.deep_view(),
            check_repo: self.check_repo@,
            source_digest: self.source_digest@,
            check_digest: self.check_digest@,
            source_built: self.source_built.deep_view(),
            check_built: self.check_built.deep_view(),
            on_mismatch: self.on_mismatch,
        }
    }
}

/// How two build dates compare; `None` where one of them is unknown.
pub open spec fn build_order(source: Option<Seq<char>>, check: Option<Seq<char>>) -> Option<Order> {
    match (source, check) {
        (Some(s), Some(c)) => Some(text_order(s, c)),
        _ => None,
    }
}

impl MismatchInfoView {
    /// What the build dates say of the source copy.
    pub open spec fn order(self) -> Option<Order> {
        build_order(self.source_built, self.check_built)
    }

    /// What the build dates say, in words.
    pub open spec fn assessment(self) -> Seq<char> {
        match self.order() {
            Some(Order::Less) => "source build is OLDER than the check copy — likely stale"@,
            Some(Order::Greater) =>
                "source build is NEWER than the check copy — may be un-propagated; review carefully"@,
            Some(Order::Equal) =>
                "same build date — likely the same image re-serialized (different manifest format)"@,
            None => "build time unavailable for one or both — review manually"@,
        }
    }

    /// What the build dates suggest.
    pub open spec fn recommendation(self) -> Seq<char> {
        match self.order() {
            Some(Order::Less) => "recommend: DELETE the source copy — the insight copy is newer"@,
            Some(Order::Greater) =>
                "recommend: KEEP the source and review — it may be a newer build that never reached insight"@,
            Some(Order::Equal) =>
                "recommend: DELETE the source copy — same build, keep the customer-facing insight copy"@,
            None => "recommend: inspect both manifests before deciding"@,
        }
    }

    /// The source copy may be deleted: it is not newer than the check copy, both
    /// build dates are known, and the rule does not park mismatches.
    pub open spec fn deletable(self) -> bool {
        self.on_mismatch == MismatchPolicy::Delete && (self.order() == Some(Order::Less)
            || self.order() == Some(Order::Equal))
    }
}

/// Compare two build dates.
fn compare_builds(source: &Option<String>, check: &Option<String>) -> (r: Option<Order>)
    ensures
        r == build_order(source.deep_view(), check.deep_view()),
{
    match source {
        Some(s) => match check {
            Some(c) => Some(compare_text(s.as_str(), c.as_str())),
            None => None,
        },
        None => None,
    }
}

impl MismatchInfo {
    /// A one-line, non-authoritative read of the build-date evidence.
    pub fn assessment(&self) -> (r: &'static str)
        ensures
            r@ == self.deep_view().assessment(),
    {
        match compare_builds(&self.source_built, &self.check_built) {
            Some(Order::Less) => "source build is OLDER than the check copy — likely stale",
            Some(Order::Greater) =>
                "source build is NEWER than the check copy — may be un-propagated; review carefully",
            Some(Order::Equal) =>
                "same build date — likely the same image re-serialized (different manifest format)",
            None => "build time unavailable for one or both — review manually",
        }
    }

    /// A suggested action from the same evidence: unless the source is newer,
    /// drop the redundant source copy.
    pub fn recommendation(&self) -> (r: &'static str)
        ensures
            r@ == self.deep_view().recommendation(),
    {
        match compare_builds(&self.source_built, &self.check_built) {
            Some(Order::Less) => "recommend: DELETE the source copy — the insight copy is newer",
            Some(Order::Greater) =>
                "recommend: KEEP the source and review — it may be a newer build that never reached insight",
            Some(Order::Equal) =>
                "recommend: DELETE the source copy — same build, keep the customer-facing insight copy",
            None => "recommend: inspect both manifests before deciding",
        }
    }

    /// Whether the `mismatch` group should delete this source copy.
    pub fn recommends_delete(&self) -> (r: bool)
        ensures
            r == self.deep_view().deletable(),
    {
        if self.on_mismatch == MismatchPolicy::Leave {
            return false;
        }
        match compare_builds(&self.source_built, &self.check_built) {
            Some(Order::Less) => true,
            Some(Order::Equal) => true,
            _ => false,
        }
    }
}

/// A source copy that is newer than the check copy is never deleted.
pub proof fn law_newer_source_is_kept(m: MismatchInfoView)
    requires
        m.source_built matches Some(s) && m.check_built matches Some(c) && text_lt(c, s),
    ensures
        !m.deletable(),
{
    let s = m.source_built->Some_0;
    let c = m.check_built->Some_0;
    lemma_text_lt_irreflexive(s);
    if text_lt(s, c) {
        lemma_text_lt_transitive(s, c, s);
    }
}

/// A rule that parks mismatches never lets one be deleted.
pub proof fn law_parked_mismatch_is_kept(m: MismatchInfoView)
    requires
        m.on_mismatch == MismatchPolicy::Leave,
    ensures
        !m.deletable(),
{
}

/// A mismatch without both build dates is never deleted.
pub proof fn law_unknown_build_is_kept(m: MismatchInfoView)
    requires
        m.source_built is None || m.check_built is None,
    ensures
        !m.deletable(),
{
}

/// A released tag whose image is on neither classify list, with the evidence
/// needed to decide which list it belongs on.
#[derive(Debug)]
pub struct TriageItem {
    pub tag: TagRef,
    /// Whether the upstream serves the tag.
    pub upstream_present: bool,
    /// Whether the upstream copy has the source copy's digest.
    pub upstream_same_digest: bool,
}

/// The contents of a [`TriageItem`].
#[verifier::ext_equal]
pub struct TriageItemView {
    pub tag: TagRefView,
    pub upstream_present: bool,
    pub upstream_same_digest: bool,
}

impl DeepView for TriageItem {
    type V = TriageItemView;

    open spec fn deep_view(&self) -> TriageItemView {
        TriageItemView {
            tag: self.tag.deep_view(),
            upstream_present: self.upstream_present,
            upstream_same_digest: self.upstream_same_digest,
        }
    }
}

impl TriageItemView {
    /// The hint that the evidence gives.
    pub open spec fn hint(self) -> Seq<char> {
        if self.upstream_present {
            if self.upstream_same_digest {
                "present upstream, same digest → likely an INSIGHT image"@
            } else {
                "present upstream, different digest → likely INSIGHT (review digest)"@
            }
        } else {
            "absent upstream → likely an AUX image"@
        }
    }
}

impl TriageItem {
    /// A one-line, non-authoritative hint at which list the image belongs on.
    pub fn hint(&self) -> (r: &'static str)
        ensures
            r@ == self.deep_view().hint(),
    {
        if self.upstream_present {
            if self.upstream_same_digest {
                "present upstream, same digest → likely an INSIGHT image"
            } else {
                "present upstream, different digest → likely INSIGHT (review digest)"
            }
        } else {
            "absent upstream → likely an AUX image"
        }
    }
}

/// The first ten bytes of a timestamp, its date, or all of it where it has no
/// such prefix.
pub open spec fn date_part(s: Seq<char>) -> Seq<char> {
    match byte_prefix(s, 10) {
        Some(d) => d,
        None => s,
    }
}

/// The date of a timestamp.
pub fn date_only(s: &str) -> (r: String)
    ensures
        r@ == date_part(s@),
{
    match first_bytes(s, 10) {
        Some(d) => d,
        None => s.to_string(),
    }
}

/// The first twelve bytes of the hex part of a digest.
pub open spec fn short_hex(hex: Seq<char>) -> Seq<char> {
    if byte_len(hex) <= 12 {
        hex
    } else {
        byte_prefix(hex, 12)->Some_0
    }
}

/// A digest can be shortened: no character straddles the twelfth byte of its hex
/// part. This holds of every digest in ASCII.
pub open spec fn shortenable(s: Seq<char>) -> bool {
    split_first(s, ':') matches Some(p) ==> byte_len(p.1) <= 12 || byte_prefix(p.1, 12) is Some
}

/// A digest shortened for display: the algorithm and the first twelve bytes
/// after the colon, or the first twelve characters where there is no colon.
pub open spec fn short_digest(s: Seq<char>) -> Seq<char> {
    match split_first(s, ':') {
        Some((algo, hex)) => algo + ":"@ + short_hex(hex),
        None => if s.len() <= 12 {
            s
        } else {
            s.take(12)
        },
    }
}

/// Whether a digest can be shortened.
pub fn can_shorten(digest: &str) -> (r: bool)
    ensures
        r == shortenable(digest@),
{
    match split_once(digest, ':') {
        Some((_, hex)) => byte_size(hex.as_str()) <= 12 || first_bytes(hex.as_str(), 12).is_some(),
        None => true,
    }
}

/// The number of bytes of a text, or any number above twelve where it is longer
/// than that.
fn byte_size(s: &str) -> (r: usize)
    ensures
        r <= 12 ==> r == byte_len(s@),
        r > 12 ==> byte_len(s@) > 12,
{
    let cs = chars_of(s);
    let mut used: usize = 0;
    let mut i: usize = 0;
    assert(s@.take(0) =~= Seq::<char>::empty());
    while i < cs.len()
        invariant
            cs@ == s@,
            i <= cs@.len(),
            used <= 12,
            used == byte_len(s@.take(i as int)),
        decreases cs@.len() - i,
    {
        let width: usize = width_of(cs[i]);
        proof {
            assert(s@.take(i + 1).drop_last() =~= s@.take(i as int));
        }
        used = used + width;
        i = i + 1;
        if used > 12 {
            proof {
                lemma_byte_len_grows(s@, i as int, s@.len() as int);
                assert(s@.take(s@.len() as int) =~= s@);
            }
            return used;
        }
    }
    assert(s@.take(s@.len() as int) =~= s@);
    used
}

/// Shorten a digest for display.
pub fn short(digest: &str) -> (r: String)
    requires
        shortenable(digest@),
    ensures
        r@ == short_digest(digest@),
{
    match split_once(digest, ':') {
        Some((algo, hex)) => {
            let mut out = algo;
            out.append(":");
            if byte_size(hex.as_str()) <= 12 {
                out.append(hex.as_str());
            } else if let Some(head) = first_bytes(hex.as_str(), 12) {
                out.append(head.as_str());
            }
            out
        },
        None => {
            let n: usize = digest.unicode_len();
            if n <= 12 {
                digest.to_string()
            } else {
                proof {
                    assert(digest@.subrange(0, 12) =~= digest@.take(12));
                }
                digest.substring_char(0, 12).to_string()
            }
        },
    }
}

} // verus!
