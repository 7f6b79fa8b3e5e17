//! Shadowing in a group repository.
//!
//! A group resolves a pull by trying its members in order, and the first that
//! holds the tag wins. Where a later member holds the same tag with a different
//! digest, its copy is cloaked: it can never be served through the group. A
//! later copy with the winner's digest is a harmless mirror. The dangerous case
//! is a cache member whose copy is cloaked.
use crate::ordered::{entry_views, group, group_by, key2, OrderedMap};
use crate::reorg::evidence::{
    can_shorten, date_only, date_part, short as short_text, short_digest, shortenable,
};
use crate::reorg::report::{append_count, say};
use crate::seqs::{
    first_where, lemma_filter_contains, lemma_filter_step, lemma_first_found, lemma_first_none,
    lemma_insert_multiset, lemma_map_step, lemma_spread_step, lemma_take_all, lemma_take_push,
    push_all, push_item, spread,
};
use crate::text::{copy_texts, decimal, join, joined, same_text, wide_text};
use vstd::prelude::*;

verus! {

/// The options of an audit.
#[derive(Debug)]
pub struct AuditConfig {
    /// Name of the group repo whose member order is audited.
    pub group: String,
}

/// Tells the copies that differ from the winner.
pub open spec fn differs(winner: Seq<char>) -> spec_fn((Seq<char>, Seq<char>)) -> bool {
    |c: (Seq<char>, Seq<char>)| c.1 != winner
}

/// Tells the cache copies that differ from the winner.
pub open spec fn hidden_cache(winner: Seq<char>) -> spec_fn((Seq<char>, Seq<char>)) -> bool {
    |c: (Seq<char>, Seq<char>)| c.1 != winner && c.0 == "cache"@
}

/// Of copies in member order, as `(repo type, digest)`: whether a later one
/// differs from the first, and how many cache copies do.
pub open spec fn verdict(copies: Seq<(Seq<char>, Seq<char>)>) -> (bool, nat) {
    if copies.len() < 2 {
        (false, 0)
    } else {
        let winner = copies[0].1;
        let losers = copies.skip(1);
        (losers.filter(differs(winner)).len() > 0, losers.filter(hidden_cache(winner)).len())
    }
}

/// Decide, for copies sorted winner-first, whether this is a real cloak and how
/// many cache copies are hidden by a different-digest winner.
pub fn classify(rt_digest: &[(&str, &str)]) -> (r: (bool, usize))
    ensures
        r.0 == verdict(rt_digest.deep_view()).0,
        r.1 == verdict(rt_digest.deep_view()).1,
{
    if rt_digest.len() < 2 {
        return (false, 0);
    }
    let winner = rt_digest[0].1;
    let ghost all = rt_digest.deep_view();
    let ghost losers = all.skip(1);
    let mut cloak = false;
    let mut cache_hidden: usize = 0;
    let mut i: usize = 1;
    proof {
        reveal(Seq::filter);
        assert(all[0] == (rt_digest@[0].0@, winner@));
        assert(losers.take(0).filter(differs(winner@)).len() == 0);
        assert(losers.take(0).filter(hidden_cache(winner@)).len() == 0);
    }
    while i < rt_digest.len()
        invariant
            all == rt_digest.deep_view(),
            losers == all.skip(1),
            1 <= i <= rt_digest@.len(),
            cache_hidden < i,
            cloak == (losers.take(i - 1).filter(differs(winner@)).len() > 0),
            cache_hidden == losers.take(i - 1).filter(hidden_cache(winner@)).len(),
        decreases rt_digest@.len() - i,
    {
        let (rt, d) = rt_digest[i];
        proof {
            lemma_filter_step(losers, differs(winner@), i - 1);
            lemma_filter_step(losers, hidden_cache(winner@), i - 1);
            assert(losers[i - 1] == (rt@, d@));
        }
        if !same_text(d, winner) {
            cloak = true;
            if same_text(rt, "cache") {
                cache_hidden = cache_hidden + 1;
            }
        }
        i = i + 1;
    }
    proof {
        lemma_take_all(losers);
    }
    (cloak, cache_hidden)
}

/// Copies that all have the winner's digest are mirrors, and nothing is cloaked.
pub proof fn law_mirrors_are_harmless(copies: Seq<(Seq<char>, Seq<char>)>)
    requires
        forall|i: int| 0 <= i < copies.len() ==> (#[trigger] copies[i]).1 == copies[0].1,
    ensures
        verdict(copies) == (false, 0nat),
{
    if copies.len() >= 2 {
        let winner = copies[0].1;
        let losers = copies.skip(1);
        assert forall|i: int| 0 <= i < losers.len() implies (#[trigger] losers[i]).1 == winner by {
            assert(losers[i] == copies[i + 1]);
        }
        lemma_none_pass(losers, differs(winner));
        lemma_none_pass(losers, hidden_cache(winner));
    }
}

/// Where no item passes, nothing is left.
proof fn lemma_none_pass<T>(s: Seq<T>, p: spec_fn(T) -> bool)
    requires
        forall|i: int| 0 <= i < s.len() ==> !p(#[trigger] s[i]),
    ensures
        s.filter(p).len() == 0,
    decreases s.len(),
{
    reveal(Seq::filter);
    if s.len() > 0 {
        let rest = s.drop_last();
        assert forall|i: int| 0 <= i < rest.len() implies !p(#[trigger] rest[i]) by {
            assert(rest[i] == s[i]);
        }
        lemma_none_pass(rest, p);
    }
}

/// A hidden cache copy is always part of a cloak.
pub proof fn law_hidden_cache_is_a_cloak(copies: Seq<(Seq<char>, Seq<char>)>)
    requires
        verdict(copies).1 > 0,
    ensures
        verdict(copies).0,
{
    let winner = copies[0].1;
    let losers = copies.skip(1);
    let hidden = losers.filter(hidden_cache(winner));
    assert(hidden.contains(hidden[0]));
    lemma_filter_contains(losers, hidden_cache(winner), hidden[0]);
    lemma_filter_contains(losers, differs(winner), hidden[0]);
    assert(losers.filter(differs(winner)).contains(hidden[0]));
}

/// A repository as the depot lists it.
#[derive(Debug)]
pub struct MemberRepo {
    pub name: String,
    pub repo_type: String,
    pub members: Vec<String>,
}

/// Tells a repository by name.
pub open spec fn repo_named(name: Seq<char>) -> spec_fn(MemberRepo) -> bool {
    |r: MemberRepo| r.name@ == name
}

/// The type of a repository, `?` where it is not listed.
pub open spec fn kind_name(repos: Seq<MemberRepo>, name: Seq<char>) -> Seq<char> {
    match first_where(repos, repo_named(name)) {
        Some(r) => r.repo_type@,
        None => "?"@,
    }
}

/// The first repository of a name.
fn find_repo<'a>(repos: &'a [MemberRepo], name: &str) -> (r: Option<&'a MemberRepo>)
    ensures
        r is Some == first_where(repos@, repo_named(name@)) is Some,
        r matches Some(x) ==> first_where(repos@, repo_named(name@)) == Some(*x),
{
    let ghost p = repo_named(name@);
    let mut i: usize = 0;
    while i < repos.len()
        invariant
            p == repo_named(name@),
            i <= repos@.len(),
            forall|j: int| 0 <= j < i ==> !p(#[trigger] repos@[j]),
        decreases repos@.len() - i,
    {
        if same_text(repos[i].name.as_str(), name) {
            proof {
                lemma_first_found(repos@, p, i as int);
            }
            return Some(&repos[i]);
        }
        i = i + 1;
    }
    proof {
        lemma_first_none(repos@, p);
    }
    None
}

/// The type of a repository.
pub fn type_of(repos: &[MemberRepo], name: &str) -> (r: String)
    ensures
        r@ == kind_name(repos@, name@),
{
    match find_repo(repos, name) {
        Some(r) => r.repo_type.clone(),
        None => "?".to_string(),
    }
}

/// The members of the audited group, in resolution order.
pub fn group_members(repos: &[MemberRepo], group: &str) -> (r: Result<Vec<String>, String>)
    ensures
        ({
            let found = first_where(repos@, repo_named(group@));
            &&& r is Ok <==> (found matches Some(g) && g.members@.len() > 0)
            &&& r matches Ok(m) ==> m.deep_view() == found->Some_0.members.deep_view()
            &&& r matches Err(e) ==> e@ == (match found {
                None => "group repo '"@ + group@ + "' not found"@,
                Some(g) => "'"@ + group@ + "' has no members (type '"@ + g.repo_type@
                    + "'); not a group/proxy repo"@,
            })
        }),
{
    match find_repo(repos, group) {
        None => {
            let mut s = "group repo '".to_string();
            s.append(group);
            s.append("' not found");
            Err(s)
        },
        Some(g) => {
            if g.members.len() == 0 {
                let mut s = "'".to_string();
                s.append(group);
                s.append("' has no members (type '");
                s.append(g.repo_type.as_str());
                s.append("'); not a group/proxy repo");
                Err(s)
            } else {
                Ok(copy_texts(g.members.as_slice()))
            }
        },
    }
}

/// The first `n` members, numbered, with their types.
pub open spec fn numbered(repos: Seq<MemberRepo>, members: Seq<Seq<char>>) -> Seq<Seq<char>> {
    Seq::new(
        members.len(),
        |i: int|
            decimal((i + 1) as nat) + ". "@ + members[i] + " ("@ + kind_name(repos, members[i])
                + ")"@,
    )
}

/// The resolution order of the group, as one message.
pub fn order_message(group: &str, repos: &[MemberRepo], members: &[String]) -> (s: String)
    ensures
        s@ == "Auditing group '"@ + group@ + "' resolution order:\n  "@ + joined(
            numbered(repos@, members.deep_view()),
            "\n  "@,
        ),
{
    let ghost ms = members.deep_view();
    let ghost all = numbered(repos@, ms);
    let mut lines: Vec<String> = Vec::new();
    let mut i: usize = 0;
    assert(lines.deep_view() =~= all.take(0));
    while i < members.len()
        invariant
            ms == members.deep_view(),
            all == numbered(repos@, ms),
            i <= members@.len(),
            lines.deep_view() == all.take(i as int),
        decreases members@.len() - i,
    {
        let m = members[i].as_str();
        let mut line = wide_text(i as u128 + 1);
        line.append(". ");
        line.append(m);
        line.append(" (");
        let t = type_of(repos, m);
        line.append(t.as_str());
        line.append(")");
        proof {
            lemma_take_push(all, i as int);
            assert(ms[i as int] == m@);
            assert(all[i as int] == line@);
        }
        push_item(&mut lines, line);
        i = i + 1;
    }
    proof {
        lemma_take_all(all);
    }
    let list = join(lines.as_slice(), "\n  ");
    let mut s = "Auditing group '".to_string();
    s.append(group);
    s.append("' resolution order:\n  ");
    s.append(list.as_str());
    s
}

/// The tags of one member, keyed by `(image, tag)`.
pub open spec fn member_items(index: usize) -> spec_fn((Seq<char>, Seq<char>)) -> (
    Seq<Seq<char>>,
    usize,
) {
    |t: (Seq<char>, Seq<char>)| (key2(t.0, t.1), index)
}

/// The tags of the first `n` members.
pub open spec fn held_items(inventories: Seq<Seq<(Seq<char>, Seq<char>)>>, n: int) -> Seq<
    (Seq<Seq<char>>, usize),
>
    decreases n,
{
    if n <= 0 {
        Seq::empty()
    } else {
        held_items(inventories, n - 1) + inventories[n - 1].map_values(
            member_items((n - 1) as usize),
        )
    }
}

/// Which members hold each `(image, tag)`: the members' positions in order,
/// tags ascending.
pub fn collect_holders(inventories: &[Vec<(String, String)>]) -> (r: OrderedMap<
    (String, String),
    Vec<usize>,
>)
    ensures
        r@ == group_by(held_items(inventories.deep_view(), inventories@.len() as int)),
{
    let ghost invs = inventories.deep_view();
    let mut items: Vec<((String, String), usize)> = Vec::new();
    let mut i: usize = 0;
    assert(entry_views(items@) =~= held_items(invs, 0));
    while i < inventories.len()
        invariant
            invs == inventories.deep_view(),
            i <= inventories@.len(),
            entry_views(items@) == held_items(invs, i as int),
        decreases inventories@.len() - i,
    {
        let inv = &inventories[i];
        let ghost base = entry_views(items@);
        let ghost ts = inv.deep_view();
        let ghost f = member_items(i);
        assert(invs[i as int] == ts);
        let mut k: usize = 0;
        assert(entry_views(items@) =~= base + ts.take(0).map_values(f));
        while k < inv.len()
            invariant
                ts == inv.deep_view(),
                f == member_items(i),
                k <= inv@.len(),
                entry_views(items@) == base + ts.take(k as int).map_values(f),
            decreases inv@.len() - k,
        {
            let (image, tag) = &inv[k];
            let ghost before = items@;
            items.push(((image.clone(), tag.clone()), i));
            proof {
                lemma_map_step(ts, f, k as int);
                assert(ts[k as int] == (image@, tag@));
                assert(entry_views(items@) =~= entry_views(before).push((key2(image@, tag@), i)));
                assert(entry_views(items@) =~= base + ts.take(k + 1).map_values(f));
            }
            k = k + 1;
        }
        proof {
            lemma_take_all(ts);
        }
        i = i + 1;
    }
    group(items)
}

/// One member's copy of a shared tag.
#[derive(Debug)]
pub struct Holder {
    /// Position in the group's member order; the lowest wins.
    pub order: usize,
    pub member: String,
    pub repo_type: String,
    pub digest: String,
    /// Build date, if known.
    pub built: Option<String>,
    /// Date of the last pull, if known.
    pub accessed: Option<String>,
}

/// The contents of a [`Holder`].
#[verifier::ext_equal]
pub struct HolderView {
    pub order: usize,
    pub member: Seq<char>,
    pub repo_type: Seq<char>,
    pub digest: Seq<char>,
    pub built: Option<Seq<char>>,
    pub accessed: Option<Seq<char>>,
}

impl DeepView for Holder {
    type V = HolderView;

    open spec fn deep_view(&self) -> HolderView {
        HolderView {
            order: self.order,
            member: self.member@,
            repo_type: self.repo_type@,
            digest: self.digest@,
            built: self.built.deep_view(),
            accessed: self.accessed.deep_view(),
        }
    }
}

/// Where a copy goes among sorted ones: after every copy that is not behind it.
pub open spec fn slot(sorted: Seq<HolderView>, h: HolderView) -> int
    decreases sorted.len(),
{
    if sorted.len() == 0 {
        0
    } else if sorted.last().order <= h.order {
        sorted.len() as int
    } else {
        slot(sorted.drop_last(), h)
    }
}

/// The copies in member order; copies of one member keep their order.
pub open spec fn in_order(hs: Seq<HolderView>) -> Seq<HolderView>
    decreases hs.len(),
{
    if hs.len() == 0 {
        hs
    } else {
        let sorted = in_order(hs.drop_last());
        sorted.insert(slot(sorted, hs.last()), hs.last())
    }
}

/// The slot is a position of the list.
proof fn lemma_slot(sorted: Seq<HolderView>, h: HolderView)
    ensures
        0 <= slot(sorted, h) <= sorted.len(),
        forall|i: int| slot(sorted, h) <= i < sorted.len() ==> (#[trigger] sorted[i]).order > h.order,
        slot(sorted, h) > 0 ==> sorted[slot(sorted, h) - 1].order <= h.order,
    decreases sorted.len(),
{
    if sorted.len() > 0 && sorted.last().order > h.order {
        let rest = sorted.drop_last();
        lemma_slot(rest, h);
        assert forall|i: int| slot(sorted, h) <= i < sorted.len() implies (
        #[trigger] sorted[i]).order > h.order by {
            if i < rest.len() {
                assert(rest[i] == sorted[i]);
            }
        }
    }
}

/// The copies are in member order.
pub proof fn law_copies_are_in_order(hs: Seq<HolderView>)
    ensures
        in_order(hs).len() == hs.len(),
        forall|i: int, j: int|
            0 <= i < j < hs.len() ==> (#[trigger] in_order(hs)[i]).order <= (
            #[trigger] in_order(hs)[j]).order,
        in_order(hs).to_multiset() == hs.to_multiset(),
    decreases hs.len(),
{
    if hs.len() > 0 {
        let rest = hs.drop_last();
        let sorted = in_order(rest);
        law_copies_are_in_order(rest);
        lemma_slot(sorted, hs.last());
        let p = slot(sorted, hs.last());
        let out = in_order(hs);
        assert forall|i: int, j: int| 0 <= i < j < out.len() implies (#[trigger] out[i]).order <= (
        #[trigger] out[j]).order by {
            if j < p {
                assert(sorted[i].order <= sorted[j].order);
            } else if j == p {
                if i < p - 1 {
                    assert(sorted[i].order <= sorted[p - 1].order);
                }
            } else if i < p {
                assert(sorted[i].order <= sorted[j - 1].order);
            } else if i == p {
                assert(out[j] == sorted[j - 1]);
            } else {
                assert(sorted[i - 1].order <= sorted[j - 1].order);
            }
        }
        lemma_insert_multiset(sorted, p, hs.last());
        vstd::seq_lib::to_multiset_build(rest, hs.last());
        assert(hs =~= rest.push(hs.last()));
    }
}

/// Put copies in member order.
pub fn order_copies(holders: Vec<Holder>) -> (r: Vec<Holder>)
    ensures
        r.deep_view() == in_order(holders.deep_view()),
{
    let ghost all = holders.deep_view();
    let mut out: Vec<Holder> = Vec::new();
    assert(out.deep_view() =~= in_order(all.take(0)));
    for h in iter: holders
        invariant
            all.len() == iter.seq().len(),
            forall|i: int| 0 <= i < all.len() ==> #[trigger] all[i] == iter.seq()[i].deep_view(),
            out.deep_view() == in_order(all.take(iter.index() as int)),
    {
        let ghost i = iter.index() as int;
        let ghost before = out.deep_view();
        let ghost hv = h.deep_view();
        let mut p: usize = out.len();
        assert(before.take(before.len() as int) =~= before);
        while p > 0 && out[p - 1].order > h.order
            invariant
                hv == h.deep_view(),
                before == out.deep_view(),
                p <= out@.len(),
                slot(before, hv) == slot(before.take(p as int), hv),
            decreases p,
        {
            proof {
                assert(before.take(p as int).drop_last() =~= before.take(p - 1));
                assert(before.take(p as int).last() == out@[p - 1].deep_view());
            }
            p = p - 1;
        }
        proof {
            if p > 0 {
                assert(before.take(p as int).last() == out@[p - 1].deep_view());
            }
            assert(slot(before, hv) == p);
            assert(all[i] == hv);
            assert(all.take(i + 1).drop_last() =~= all.take(i));
            assert(all.take(i + 1).last() == hv);
        }
        out.insert(p, h);
        assert(out.deep_view() =~= before.insert(p as int, hv));
    }
    proof {
        lemma_take_all(all);
    }
    out
}

/// Type and digest of a copy.
pub open spec fn type_and_digest() -> spec_fn(HolderView) -> (Seq<char>, Seq<char>) {
    |h: HolderView| (h.repo_type, h.digest)
}

/// The verdict on the copies of one tag, in member order.
pub fn judge(holders: &[Holder]) -> (r: (bool, usize))
    ensures
        r.0 == verdict(holders.deep_view().map_values(type_and_digest())).0,
        r.1 == verdict(holders.deep_view().map_values(type_and_digest())).1,
{
    let ghost hs = holders.deep_view();
    let mut pairs: Vec<(&str, &str)> = Vec::new();
    let mut i: usize = 0;
    assert(pairs.deep_view() =~= hs.take(0).map_values(type_and_digest()));
    while i < holders.len()
        invariant
            hs == holders.deep_view(),
            i <= holders@.len(),
            pairs.deep_view() == hs.take(i as int).map_values(type_and_digest()),
        decreases holders@.len() - i,
    {
        proof {
            lemma_map_step(hs, type_and_digest(), i as int);
            assert(hs[i as int] == holders@[i as int].deep_view());
        }
        push_item(&mut pairs, (holders[i].repo_type.as_str(), holders[i].digest.as_str()));
        i = i + 1;
    }
    proof {
        lemma_take_all(hs);
    }
    classify(pairs.as_slice())
}

/// A tag whose winner hides a different copy.
#[derive(Debug)]
pub struct Cloak {
    pub image: String,
    pub tag: String,
    /// The copies in member order.
    pub holders: Vec<Holder>,
    /// How many cache copies are hidden.
    pub cache_hidden: usize,
}

/// The contents of a [`Cloak`].
#[verifier::ext_equal]
pub struct CloakView {
    pub image: Seq<char>,
    pub tag: Seq<char>,
    pub holders: Seq<HolderView>,
    pub cache_hidden: usize,
}

impl DeepView for Cloak {
    type V = CloakView;

    open spec fn deep_view(&self) -> CloakView {
        CloakView {
            image: self.image@,
            tag: self.tag@,
            holders: self.holders.deep_view(),
            cache_hidden: self.cache_hidden,
        }
    }
}

/// What an audit makes of one tag.
#[derive(Debug)]
pub enum TagVerdict {
    /// Fewer than two members serve the tag.
    Alone,
    /// Every copy has the same digest.
    Benign,
    Cloaked(Cloak),
}

/// The contents of a [`TagVerdict`].
pub enum TagVerdictView {
    Alone,
    Benign,
    Cloaked(CloakView),
}

impl DeepView for TagVerdict {
    type V = TagVerdictView;

    open spec fn deep_view(&self) -> TagVerdictView {
        match self {
            TagVerdict::Alone => TagVerdictView::Alone,
            TagVerdict::Benign => TagVerdictView::Benign,
            TagVerdict::Cloaked(c) => TagVerdictView::Cloaked(c.deep_view()),
        }
    }
}

/// What an audit makes of one tag, given the copies that are served.
pub open spec fn tag_verdict(
    image: Seq<char>,
    tag: Seq<char>,
    copies: Seq<HolderView>,
) -> TagVerdictView {
    let sorted = in_order(copies);
    let v = verdict(sorted.map_values(type_and_digest()));
    if copies.len() < 2 {
        TagVerdictView::Alone
    } else if !v.0 {
        TagVerdictView::Benign
    } else {
        TagVerdictView::Cloaked(
            CloakView { image, tag, holders: sorted, cache_hidden: v.1 as usize },
        )
    }
}

/// Settle one tag from the copies that its members serve.
pub fn settle_tag(image: &str, tag: &str, copies: Vec<Holder>) -> (r: TagVerdict)
    ensures
        r.deep_view() == tag_verdict(image@, tag@, copies.deep_view()),
{
    if copies.len() < 2 {
        return TagVerdict::Alone;
    }
    let holders = order_copies(copies);
    let (cloaked, cache_hidden) = judge(holders.as_slice());
    if cloaked {
        TagVerdict::Cloaked(
            Cloak { image: image.to_string(), tag: tag.to_string(), holders, cache_hidden },
        )
    } else {
        TagVerdict::Benign
    }
}

/// A tag is looked at more closely only where several members list it.
pub fn is_shared(members: &[usize]) -> (r: bool)
    ensures
        r == (members@.len() >= 2),
{
    members.len() >= 2
}

/// How many tags a member holds, in words.
pub fn member_line(member: &str, tags: usize) -> (s: String)
    ensures
        s@ == "  ("@ + member@ + ") holds "@ + decimal(tags as nat) + " tag(s)"@,
{
    let mut s = "  (".to_string();
    s.append(member);
    s.append(") holds ");
    append_count(&mut s, tags);
    s.append(" tag(s)");
    s
}

/// The line of the copy at position `i`.
pub open spec fn copy_line(winner: Seq<char>, h: HolderView, first: bool) -> Seq<char> {
    "      "@ + (if first {
        "winner "@
    } else if h.digest == winner {
        "mirror "@
    } else {
        "cloaked"@
    }) + " -> ("@ + h.member + ") "@ + h.repo_type + " ["@ + short_digest(h.digest)
        + "]  built "@ + (match h.built {
        Some(b) => b,
        None => "?"@,
    }) + "  last-pull "@ + (match h.accessed {
        Some(a) => a,
        None => "never/unknown"@,
    }) + (if !first && h.digest != winner && h.repo_type == "cache"@ {
        "   <-- CACHE HIDDEN (canonical content overridden)"@
    } else {
        Seq::empty()
    })
}

/// The lines of one cloaked tag.
pub open spec fn cloak_lines() -> spec_fn(CloakView) -> Seq<Seq<char>> {
    |c: CloakView|
        seq!["  "@ + c.image + ":"@ + c.tag] + Seq::new(
            c.holders.len(),
            |i: int| copy_line(c.holders[0].digest, c.holders[i], i == 0),
        )
}

/// Every digest of a cloak can be shortened for display.
pub open spec fn cloak_showable(c: CloakView) -> bool {
    forall|i: int| 0 <= i < c.holders.len() ==> shortenable((#[trigger] c.holders[i]).digest)
}

/// The number of hidden cache copies.
pub open spec fn total_hidden(cloaks: Seq<CloakView>) -> nat
    decreases cloaks.len(),
{
    if cloaks.len() == 0 {
        0
    } else {
        total_hidden(cloaks.drop_last()) + cloaks.last().cache_hidden as nat
    }
}

/// The lines of the report.
pub open spec fn audit_lines(cloaks: Seq<CloakView>, benign: nat) -> Seq<Seq<char>> {
    seq![
        "\n"@ + decimal(cloaks.len() + benign) + " tag(s) held by >1 member; "@ + decimal(benign)
            + " are identical (same digest, harmless)."@,
    ] + (if cloaks.len() == 0 {
        seq!["\nNo cloaks: every multi-member tag resolves to identical content. ✓"@]
    } else {
        seq![
            "\n"@ + decimal(cloaks.len())
                + " tag(s) cloaked — an earlier member hides a DIFFERENT-digest copy below (a same-digest loser is just a 'mirror', shown for context):"@,
        ] + spread(cloaks, cloak_lines()) + seq![
            if total_hidden(cloaks) > 0 {
                "\n⚠  "@ + decimal(total_hidden(cloaks))
                    + " cache copy(ies) are cloaked by an earlier member with different content. Resolve these (delete/repoint the hosted copy, or reorder) before relying on the group to serve the canonical image."@
            } else {
                "\nNo cache members are cloaked by different content (the dangerous direction). ✓"@
            },
        ]
    })
}

/// The line of one copy.
fn say_copy(winner: &str, h: &Holder, first: bool) -> (line: String)
    requires
        shortenable(h.deep_view().digest),
    ensures
        line@ == copy_line(winner@, h.deep_view(), first),
{
    let same = same_text(h.digest.as_str(), winner);
    let mut line = "      ".to_string();
    if first {
        line.append("winner ");
    } else if same {
        line.append("mirror ");
    } else {
        line.append("cloaked");
    }
    line.append(" -> (");
    line.append(h.member.as_str());
    line.append(") ");
    line.append(h.repo_type.as_str());
    line.append(" [");
    let d = short_text(h.digest.as_str());
    line.append(d.as_str());
    line.append("]  built ");
    match &h.built {
        Some(b) => line.append(b.as_str()),
        None => line.append("?"),
    }
    line.append("  last-pull ");
    match &h.accessed {
        Some(a) => line.append(a.as_str()),
        None => line.append("never/unknown"),
    }
    let ghost so_far = line@;
    if !first && !same && same_text(h.repo_type.as_str(), "cache") {
        line.append("   <-- CACHE HIDDEN (canonical content overridden)");
    } else {
        assert(so_far + Seq::<char>::empty() =~= so_far);
    }
    line
}

/// The lines of one cloaked tag.
fn say_cloak(c: &Cloak) -> (out: Vec<String>)
    requires
        cloak_showable(c.deep_view()),
    ensures
        out.deep_view() == cloak_lines()(c.deep_view()),
{
    let ghost cv = c.deep_view();
    let mut out: Vec<String> = Vec::new();
    let mut head = "  ".to_string();
    head.append(c.image.as_str());
    head.append(":");
    head.append(c.tag.as_str());
    push_item(&mut out, head);
    let ghost base = out.deep_view();
    let ghost all = Seq::new(
        cv.holders.len(),
        |i: int| copy_line(cv.holders[0].digest, cv.holders[i], i == 0),
    );
    let mut i: usize = 0;
    assert(out.deep_view() =~= base + all.take(0));
    while i < c.holders.len()
        invariant
            cv == c.deep_view(),
            cloak_showable(cv),
            all == Seq::new(
                cv.holders.len(),
                |i: int| copy_line(cv.holders[0].digest, cv.holders[i], i == 0),
            ),
            i <= c.holders@.len(),
            out.deep_view() == base + all.take(i as int),
        decreases c.holders@.len() - i,
    {
        proof {
            assert(cv.holders[i as int] == c.holders@[i as int].deep_view());
            assert(cv.holders[0] == c.holders@[0].deep_view());
            lemma_take_push(all, i as int);
        }
        let line = say_copy(c.holders[0].digest.as_str(), &c.holders[i], i == 0);
        assert(all[i as int] == line@);
        push_item(&mut out, line);
        assert(out.deep_view() =~= base + all.take(i + 1));
        i = i + 1;
    }
    proof {
        lemma_take_all(all);
    }
    out
}

/// The number of hidden cache copies.
pub fn count_hidden(cloaks: &[Cloak]) -> (r: u128)
    ensures
        r == total_hidden(cloaks.deep_view()),
{
    let ghost cs = cloaks.deep_view();
    let mut n: u128 = 0;
    let mut i: usize = 0;
    assert(cs.take(0) =~= Seq::<CloakView>::empty());
    while i < cloaks.len()
        invariant
            cs == cloaks.deep_view(),
            i <= cloaks@.len(),
            n == total_hidden(cs.take(i as int)),
            n <= i * 0xffff_ffff_ffff_ffff,
        decreases cloaks@.len() - i,
    {
        proof {
            assert(cs.take(i + 1).drop_last() =~= cs.take(i as int));
            assert(cs[i as int] == cloaks@[i as int].deep_view());
            assert(i * 0xffff_ffff_ffff_ffff + 0xffff_ffff_ffff_ffff <= 0xffff_ffff_ffff_ffff
                * 0xffff_ffff_ffff_ffff) by (nonlinear_arith)
                requires
                    i < 0xffff_ffff_ffff_ffff,
            ;
            assert((i + 1) * 0xffff_ffff_ffff_ffff == i * 0xffff_ffff_ffff_ffff
                + 0xffff_ffff_ffff_ffff) by (nonlinear_arith);
        }
        n = n + cloaks[i].cache_hidden as u128;
        i = i + 1;
    }
    proof {
        lemma_take_all(cs);
    }
    n
}

/// The report of an audit: `benign` counts the tags whose copies are all the
/// same.
pub fn print_audit(cloaks: &[Cloak], benign: usize) -> (out: Vec<String>)
    requires
        forall|i: int| 0 <= i < cloaks@.len() ==> cloak_showable(#[trigger] cloaks@[i].deep_view()),
    ensures
        out.deep_view() == audit_lines(cloaks.deep_view(), benign as nat),
{
    let ghost cs = cloaks.deep_view();
    let mut out: Vec<String> = Vec::new();
    let total = wide_text(cloaks.len() as u128 + benign as u128);
    let mut head = "\n".to_string();
    head.append(total.as_str());
    head.append(" tag(s) held by >1 member; ");
    append_count(&mut head, benign);
    head.append(" are identical (same digest, harmless).");
    push_item(&mut out, head);
    if cloaks.len() == 0 {
        say(&mut out, "\nNo cloaks: every multi-member tag resolves to identical content. ✓");
        assert(out.deep_view() =~= audit_lines(cs, benign as nat));
        return out;
    }
    let mut second = "\n".to_string();
    append_count(&mut second, cloaks.len());
    second.append(
        " tag(s) cloaked — an earlier member hides a DIFFERENT-digest copy below (a same-digest loser is just a 'mirror', shown for context):",
    );
    push_item(&mut out, second);
    let ghost base = out.deep_view();
    let mut i: usize = 0;
    assert(out.deep_view() =~= base + spread(cs.take(0), cloak_lines()));
    while i < cloaks.len()
        invariant
            forall|i: int|
                0 <= i < cloaks@.len() ==> cloak_showable(#[trigger] cloaks@[i].deep_view()),
            cs == cloaks.deep_view(),
            i <= cloaks@.len(),
            out.deep_view() == base + spread(cs.take(i as int), cloak_lines()),
        decreases cloaks@.len() - i,
    {
        proof {
            lemma_spread_step(cs, cloak_lines(), i as int);
            assert(cs[i as int] == cloaks@[i as int].deep_view());
        }
        push_all(&mut out, say_cloak(&cloaks[i]));
        assert(out.deep_view() =~= base + spread(cs.take(i + 1), cloak_lines()));
        i = i + 1;
    }
    proof {
        lemma_take_all(cs);
    }
    let hidden: u128 = count_hidden(cloaks);
    if hidden > 0 {
        let mut s = "\n⚠  ".to_string();
        let n = wide_text(hidden);
        s.append(n.as_str());
        s.append(
            " cache copy(ies) are cloaked by an earlier member with different content. Resolve these (delete/repoint the hosted copy, or reorder) before relying on the group to serve the canonical image.",
        );
        push_item(&mut out, s);
    } else {
        say(
            &mut out,
            "\nNo cache members are cloaked by different content (the dangerous direction). ✓",
        );
    }
    assert(out.deep_view() =~= audit_lines(cs, benign as nat));
    out
}

/// An audit fails exactly where a cache copy is hidden.
pub fn audit_result(cloaks: &[Cloak]) -> (r: Result<(), String>)
    ensures
        r is Ok <==> total_hidden(cloaks.deep_view()) == 0,
        r matches Err(e) ==> e@ == decimal(total_hidden(cloaks.deep_view()))
            + " cache tag(s) cloaked"@,
{
    let hidden: u128 = count_hidden(cloaks);
    if hidden > 0 {
        let mut s = wide_text(hidden);
        s.append(" cache tag(s) cloaked");
        Err(s)
    } else {
        Ok(())
    }
}

/// Whether every digest of the cloaks can be shown.
pub fn audit_showable(cloaks: &[Cloak]) -> (r: bool)
    ensures
        r == forall|i: int|
            0 <= i < cloaks@.len() ==> cloak_showable(#[trigger] cloaks@[i].deep_view()),
{
    let mut i: usize = 0;
    while i < cloaks.len()
        invariant
            i <= cloaks@.len(),
            forall|j: int| 0 <= j < i ==> cloak_showable(#[trigger] cloaks@[j].deep_view()),
        decreases cloaks@.len() - i,
    {
        let hs = &cloaks[i].holders;
        let ghost hv = cloaks@[i as int].deep_view().holders;
        let mut k: usize = 0;
        while k < hs.len()
            invariant
                i < cloaks@.len(),
                hv == cloaks@[i as int].deep_view().holders,
                hv == hs.deep_view(),
                k <= hs@.len(),
                forall|j: int| 0 <= j < k ==> shortenable((#[trigger] hv[j]).digest),
            decreases hs@.len() - k,
        {
            assert(hv[k as int] == hs@[k as int].deep_view());
            if !can_shorten(hs[k].digest.as_str()) {
                assert(!cloak_showable(cloaks@[i as int].deep_view()));
                return false;
            }
            k = k + 1;
        }
        i = i + 1;
    }
    true
}

/// The date of a timestamp.
pub fn date(ts: &str) -> (r: String)
    ensures
        r@ == date_part(ts@),
{
    date_only(ts)
}

/// Shorten a digest for display.
pub fn short(digest: &str) -> (r: String)
    requires
        shortenable(digest@),
    ensures
        r@ == short_digest(digest@),
{
    short_text(digest)
}

} // verus!
