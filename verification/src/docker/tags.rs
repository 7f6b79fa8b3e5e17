//! Listing tags and image names, page by page.
use crate::auth::{check_grants, granted, Capability, RoleRecord};
use crate::ordered::{
    ascending, insert_keys, insert_texts, key1, key_lt, lemma_insert_keys, lemma_sorted_keys,
    lemma_text_keys, sorted_keys, text_keys, KeySet, TextKey,
};
use crate::seqs::{
    lemma_filter_map_contains, lemma_filter_map_step, lemma_filter_step, lemma_spread_contains,
    lemma_spread_step, lemma_take_all, push_item, spread,
};
use crate::text::{
    compare_text, count_text, decimal, lemma_text_lt_irreflexive, lemma_text_lt_transitive, text_lt,
    Order,
};
use vstd::prelude::*;

verus! {

/// Which part of a listing a request asks for: at most `n` names, those behind
/// `last`.
#[derive(Debug, PartialEq, Eq)]
pub struct DockerPaginationParams {
    pub n: Option<usize>,
    pub last: Option<String>,
}

/// A page of names, with the value of the `Link` header that leads to the next.
#[derive(Debug, PartialEq, Eq)]
pub struct NamePage {
    pub names: Vec<String>,
    pub link: Option<String>,
}

/// The contents of a [`NamePage`].
#[verifier::ext_equal]
pub struct NamePageView {
    pub names: Seq<Seq<char>>,
    pub link: Option<Seq<char>>,
}

impl DeepView for NamePage {
    type V = NamePageView;

    open spec fn deep_view(&self) -> NamePageView {
        NamePageView { names: self.names.deep_view(), link: self.link.deep_view() }
    }
}

/// Tells the names behind `last`.
pub open spec fn behind(last: Seq<char>) -> spec_fn(Seq<char>) -> bool {
    |t: Seq<char>| text_lt(last, t)
}

/// The names that a request has not seen yet.
pub open spec fn remaining(names: Seq<Seq<char>>, last: Option<Seq<char>>) -> Seq<Seq<char>> {
    match last {
        Some(l) => names.filter(behind(l)),
        None => names,
    }
}

/// The first `n` names of a list, or all where there are fewer.
pub open spec fn at_most(names: Seq<Seq<char>>, n: nat) -> Seq<Seq<char>> {
    if names.len() <= n {
        names
    } else {
        names.take(n as int)
    }
}

/// The value of the header that leads to the page behind a name.
pub open spec fn next_link(path: Seq<char>, n: nat, last: Seq<char>) -> Seq<char> {
    "<"@ + path + "?n="@ + decimal(n) + "&last="@ + last + ">; rel=\"next\""@
}

/// The page that a request asks for. There is a link where names are left, unless
/// the page is empty.
pub open spec fn name_page(
    names: Seq<Seq<char>>,
    n: Option<usize>,
    last: Option<Seq<char>>,
    path: Seq<char>,
) -> NamePageView {
    let left = remaining(names, last);
    match n {
        None => NamePageView { names: left, link: None },
        Some(k) => NamePageView {
            names: at_most(left, k as nat),
            link: if left.len() > k && k > 0 {
                Some(next_link(path, k as nat, left[k - 1]))
            } else {
                None
            },
        },
    }
}

/// Cut the page that a request asks for out of a list of names.
pub fn paginate(names: Vec<String>, pagination: &DockerPaginationParams, link_path: &str) -> (r:
    NamePage)
    ensures
        r.deep_view() == name_page(
            names.deep_view(),
            pagination.n,
            pagination.last.deep_view(),
            link_path@,
        ),
{
    let ghost all = names.deep_view();
    let ghost left = remaining(all, pagination.last.deep_view());
    let filtered: Vec<String> = match &pagination.last {
        Some(last) => {
            let ghost p = behind(last@);
            let mut out: Vec<String> = Vec::new();
            proof {
                reveal(Seq::filter);
                assert(out.deep_view() =~= all.take(0).filter(p));
            }
            for name in iter: names
                invariant
                    all == iter.seq().map_values(|s: String| s.deep_view()),
                    p == behind(last@),
                    out.deep_view() == all.take(iter.index() as int).filter(p),
            {
                proof {
                    assert(all[iter.index() as int] == name@);
                    lemma_filter_step(all, p, iter.index() as int);
                    lemma_text_lt_irreflexive(name@);
                }
                if compare_text(last.as_str(), name.as_str()) == Order::Less {
                    push_item(&mut out, name);
                }
            }
            proof {
                lemma_take_all(all);
                assert(names.deep_view() =~= all);
            }
            out
        },
        None => names,
    };
    let n: usize = match pagination.n {
        Some(k) => k,
        None => filtered.len(),
    };
    let has_more = filtered.len() > n;
    let mut page: Vec<String> = Vec::new();
    let mut i: usize = 0;
    assert(page.deep_view() =~= left.take(0));
    while i < filtered.len() && i < n
        invariant
            i <= filtered@.len(),
            i <= n,
            left == filtered.deep_view(),
            page.deep_view() == left.take(i as int),
        decreases filtered@.len() - i,
    {
        push_item(&mut page, filtered[i].clone());
        assert(page.deep_view() =~= left.take(i + 1));
        i = i + 1;
    }
    proof {
        lemma_take_all(left);
    }
    let link = if has_more && n > 0 {
        let mut l = "<".to_string();
        l.append(link_path);
        l.append("?n=");
        l.append(count_text(n).as_str());
        l.append("&last=");
        l.append(page[n - 1].as_str());
        l.append(">; rel=\"next\"");
        assert(page.deep_view()[n - 1] == left[n - 1]);
        Some(l)
    } else {
        None
    };
    NamePage { names: page, link }
}

/// The name under which the tags of an image are listed.
pub open spec fn display_name(repo: Seq<char>, image: Option<Seq<char>>) -> Seq<char> {
    match image {
        Some(i) => repo + "/"@ + i,
        None => repo,
    }
}

/// The name under which the tags of an image are listed.
pub fn tag_list_name(repo: &str, image: Option<&str>) -> (r: String)
    ensures
        r@ == display_name(repo@, image.deep_view()),
{
    let mut out = repo.to_string();
    if let Some(i) = image {
        out.append("/");
        out.append(i);
    }
    out
}

/// The path of a tag listing.
pub open spec fn tag_list_path(repo: Seq<char>, image: Option<Seq<char>>) -> Seq<char> {
    "/v2/"@ + display_name(repo, image) + "/tags/list"@
}

/// The texts of single-text keys.
pub open spec fn key_texts(keys: Seq<Seq<Seq<char>>>) -> Seq<Seq<char>> {
    keys.map_values(|k: Seq<Seq<char>>| k[0])
}

/// The names of several lists, each once, in ascending order.
pub open spec fn union_of(lists: Seq<Seq<Seq<char>>>) -> Seq<Seq<char>> {
    key_texts(sorted_keys(text_keys(spread(lists, |l: Seq<Seq<char>>| l))))
}

/// Adding one list after another is adding all of them.
proof fn lemma_insert_more(
    keys: Seq<Seq<Seq<char>>>,
    a: Seq<Seq<Seq<char>>>,
    b: Seq<Seq<Seq<char>>>,
)
    ensures
        insert_keys(insert_keys(keys, a), b) == insert_keys(keys, a + b),
    decreases b.len(),
{
    if b.len() == 0 {
        assert(a + b =~= a);
    } else {
        assert((a + b).drop_last() =~= a + b.drop_last());
        lemma_insert_more(keys, a, b.drop_last());
    }
}

/// The names of several lists, each once, in ascending order: the tags of the
/// members of a proxy, or the images of several repositories.
pub fn union_names(lists: &[Vec<String>]) -> (r: Vec<String>)
    ensures
        r.deep_view() == union_of(lists.deep_view()),
{
    let ghost all = lists.deep_view();
    let ghost same = |l: Seq<Seq<char>>| l;
    let ghost none = Seq::<Seq<Seq<char>>>::empty();
    let mut set: KeySet<String> = KeySet::new();
    let mut i: usize = 0;
    proof {
        assert(all.take(0) =~= Seq::<Seq<Seq<char>>>::empty());
        assert(text_keys(spread(all.take(0), same)) =~= none);
    }
    while i < lists.len()
        invariant
            i <= lists@.len(),
            all == lists.deep_view(),
            same == (|l: Seq<Seq<char>>| l),
            none == Seq::<Seq<Seq<char>>>::empty(),
            set@ == insert_keys(none, text_keys(spread(all.take(i as int), same))),
        decreases lists@.len() - i,
    {
        insert_texts(&mut set, lists[i].as_slice());
        proof {
            let before = spread(all.take(i as int), same);
            let next = all[i as int];
            assert(next == lists@[i as int].deep_view());
            lemma_spread_step(all, same, i as int);
            lemma_insert_more(none, text_keys(before), text_keys(next));
            assert(text_keys(before + next) =~= text_keys(before) + text_keys(next));
        }
        i = i + 1;
    }
    proof {
        lemma_take_all(all);
        assert(ascending(none));
        lemma_insert_keys(none, text_keys(spread(all, same)));
    }
    let n: usize = set.len();
    let mut out: Vec<String> = Vec::new();
    let mut j: usize = 0;
    assert(out.deep_view() =~= key_texts(set@.take(0)));
    while j < n
        invariant
            j <= n,
            n == set@.len(),
            out.deep_view() == key_texts(set@.take(j as int)),
        decreases n - j,
    {
        let name = set.at(j);
        proof {
            assert(name.parts()[0] == name@);
            assert(key_texts(set@.take(j + 1)) =~= key_texts(set@.take(j as int)).push(
                set@[j as int][0],
            ));
        }
        push_item(&mut out, name.clone());
        j = j + 1;
    }
    proof {
        lemma_take_all(set@);
    }
    out
}

/// Where the tags of an image come from.
#[derive(Debug, PartialEq, Eq)]
pub enum TagSource {
    /// The tags of a repository that holds images itself, hosted or as a cache.
    Repo(Vec<String>),
    /// The tags of each member of a proxy, in order; `None` where a member is
    /// missing or could not be read.
    Proxy(Vec<Option<Vec<String>>>),
}

/// The contents of a [`TagSource`].
#[verifier::ext_equal]
pub enum TagSourceView {
    Repo(Seq<Seq<char>>),
    Proxy(Seq<Option<Seq<Seq<char>>>>),
}

impl DeepView for TagSource {
    type V = TagSourceView;

    open spec fn deep_view(&self) -> TagSourceView {
        match self {
            TagSource::Repo(tags) => TagSourceView::Repo(tags.deep_view()),
            TagSource::Proxy(lists) => TagSourceView::Proxy(lists.deep_view()),
        }
    }
}

/// The list of a member that answered.
pub open spec fn answered() -> spec_fn(Option<Seq<Seq<char>>>) -> Option<Seq<Seq<char>>> {
    |l: Option<Seq<Seq<char>>>| l
}

/// The tags that a listing shows: those of the repository or, for a proxy, those of
/// the members that answered, each once, in ascending order.
pub open spec fn tags_of(source: TagSourceView) -> Seq<Seq<char>> {
    match source {
        TagSourceView::Repo(tags) => tags,
        TagSourceView::Proxy(lists) => union_of(lists.filter_map(answered())),
    }
}

/// The tags that a listing shows.
fn listed_tags(source: TagSource) -> (r: Vec<String>)
    ensures
        r.deep_view() == tags_of(source.deep_view()),
{
    match source {
        TagSource::Repo(tags) => tags,
        TagSource::Proxy(lists) => {
            let ghost all = lists.deep_view();
            let mut found: Vec<Vec<String>> = Vec::new();
            assert(all.take(0) =~= Seq::<Option<Seq<Seq<char>>>>::empty());
            assert(found.deep_view() =~= all.take(0).filter_map(answered()));
            for list in iter: lists
                invariant
                    all == iter.seq().map_values(|l: Option<Vec<String>>| l.deep_view()),
                    found.deep_view() == all.take(iter.index() as int).filter_map(answered()),
            {
                proof {
                    assert(all[iter.index() as int] == list.deep_view());
                    lemma_filter_map_step(all, answered(), iter.index() as int);
                }
                if let Some(tags) = list {
                    push_item(&mut found, tags);
                }
            }
            proof {
                lemma_take_all(all);
                assert(lists.deep_view() =~= all);
            }
            union_names(found.as_slice())
        },
    }
}

/// The page of an image's tags that a request asks for.
pub fn do_list_tags(
    repo_name: &str,
    image: Option<&str>,
    source: TagSource,
    pagination: &DockerPaginationParams,
) -> (r: NamePage)
    ensures
        r.deep_view() == name_page(
            tags_of(source.deep_view()),
            pagination.n,
            pagination.last.deep_view(),
            tag_list_path(repo_name@, image.deep_view()),
        ),
{
    let name = tag_list_name(repo_name, image);
    let mut path = "/v2/".to_string();
    path.append(name.as_str());
    path.append("/tags/list");
    paginate(listed_tags(source), pagination, path.as_str())
}

/// A repository, as far as the catalog looks at it.
#[derive(Debug, PartialEq, Eq)]
pub struct CatalogRepo {
    pub name: String,
    pub docker: bool,
}

impl DeepView for CatalogRepo {
    type V = (Seq<char>, bool);

    open spec fn deep_view(&self) -> (Seq<char>, bool) {
        (self.name@, self.docker)
    }
}

/// The name of a docker repository that the roles let the caller read.
pub open spec fn readable(roles: Seq<RoleRecord>) -> spec_fn((Seq<char>, bool)) -> Option<Seq<char>> {
    |r: (Seq<char>, bool)|
        if r.1 && granted(roles, r.0, Capability::Read) {
            Some(r.0)
        } else {
            None
        }
}

/// The docker repositories that the caller can read.
pub fn catalog(repos: Vec<CatalogRepo>, roles: &[RoleRecord]) -> (r: Vec<String>)
    ensures
        r.deep_view() == repos.deep_view().filter_map(readable(roles@)),
{
    let ghost all = repos.deep_view();
    let ghost f = readable(roles@);
    let mut out: Vec<String> = Vec::new();
    assert(all.take(0) =~= Seq::<(Seq<char>, bool)>::empty());
    assert(out.deep_view() =~= all.take(0).filter_map(f));
    for repo in iter: repos
        invariant
            all == iter.seq().map_values(|c: CatalogRepo| c.deep_view()),
            f == readable(roles@),
            out.deep_view() == all.take(iter.index() as int).filter_map(f),
    {
        proof {
            assert(all[iter.index() as int] == repo.deep_view());
            lemma_filter_map_step(all, f, iter.index() as int);
        }
        if repo.docker && check_grants(roles, repo.name.as_str(), Capability::Read).is_ok() {
            push_item(&mut out, repo.name);
        }
    }
    proof {
        lemma_take_all(all);
        assert(repos.deep_view() =~= all);
    }
    out
}

/// A page of the catalog.
pub fn paginate_catalog(
    lists: &[Vec<String>],
    pagination: &DockerPaginationParams,
    link_path: &str,
) -> (r: NamePage)
    ensures
        r.deep_view() == name_page(
            union_of(lists.deep_view()),
            pagination.n,
            pagination.last.deep_view(),
            link_path@,
        ),
{
    paginate(union_names(lists), pagination, link_path)
}

/// Names in strictly ascending order.
pub open spec fn names_ascend(names: Seq<Seq<char>>) -> bool {
    forall|i: int, j: int|
        0 <= i < j < names.len() ==> text_lt(#[trigger] names[i], #[trigger] names[j])
}

/// Of ascending names, those behind a name are the last ones.
proof fn lemma_behind(names: Seq<Seq<char>>, last: Seq<char>, p: int)
    requires
        0 <= p <= names.len(),
        forall|i: int| 0 <= i < p ==> !text_lt(last, #[trigger] names[i]),
        forall|i: int| p <= i < names.len() ==> text_lt(last, #[trigger] names[i]),
    ensures
        names.filter(behind(last)) == names.skip(p),
    decreases names.len(),
{
    reveal(Seq::filter);
    if names.len() == 0 {
        assert(names.filter(behind(last)) =~= names.skip(p));
    } else {
        let rest = names.drop_last();
        let n = names.len() - 1;
        assert(names =~= rest.push(names[n]));
        rest.lemma_filter_push(names[n], behind(last));
        if p <= n {
            lemma_behind(rest, last, p);
            assert(names.skip(p) =~= rest.skip(p).push(names[n]));
        } else {
            lemma_behind(rest, last, n as int);
            assert(names.skip(p) =~= rest.skip(n as int));
        }
    }
}

/// The position from which ascending names are behind a name.
proof fn lemma_split(names: Seq<Seq<char>>, last: Seq<char>) -> (p: int)
    requires
        names_ascend(names),
    ensures
        0 <= p <= names.len(),
        forall|i: int| 0 <= i < p ==> !text_lt(last, #[trigger] names[i]),
        forall|i: int| p <= i < names.len() ==> text_lt(last, #[trigger] names[i]),
    decreases names.len(),
{
    if names.len() == 0 {
        0
    } else {
        let rest = names.drop_last();
        let n = names.len() - 1;
        let p = lemma_split(rest, last);
        assert forall|i: int| 0 <= i < p implies !text_lt(last, #[trigger] names[i]) by {
            assert(rest[i] == names[i]);
        }
        assert forall|i: int| p <= i < n implies text_lt(last, #[trigger] names[i]) by {
            assert(rest[i] == names[i]);
        }
        if p < n {
            assert(text_lt(last, names[p]));
            assert(text_lt(names[p], names[n]));
            lemma_text_lt_transitive(last, names[p], names[n]);
            p
        } else if text_lt(last, names[n]) {
            n
        } else {
            n + 1
        }
    }
}

/// Following the link of a page leads to the names that the page left out, in
/// order: nothing is skipped and nothing comes twice.
pub proof fn law_next_page_continues(
    names: Seq<Seq<char>>,
    last: Option<Seq<char>>,
    n: usize,
    path: Seq<char>,
)
    requires
        names_ascend(names),
        name_page(names, Some(n), last, path).link is Some,
    ensures
        ({
            let page = name_page(names, Some(n), last, path);
            &&& page.names.len() == n
            &&& page.link == Some(next_link(path, n as nat, page.names.last()))
            &&& page.names + remaining(names, Some(page.names.last())) == remaining(names, last)
        }),
{
    let left = remaining(names, last);
    let p: int = match last {
        Some(l) => {
            let p = lemma_split(names, l);
            lemma_behind(names, l, p);
            p
        },
        None => 0,
    };
    assert(left =~= names.skip(p));
    let page = name_page(names, Some(n), last, path);
    let at = p + n - 1;
    assert(page.names.last() == names[at]);
    assert forall|i: int| 0 <= i < at + 1 implies !text_lt(names[at], #[trigger] names[i]) by {
        lemma_text_lt_irreflexive(names[at]);
        if i < at && text_lt(names[at], names[i]) {
            assert(text_lt(names[i], names[at]));
            lemma_text_lt_transitive(names[at], names[i], names[at]);
        }
    }
    lemma_behind(names, names[at], at + 1);
    assert(page.names + remaining(names, Some(page.names.last())) =~= left);
}

/// A page without a link, cut with a positive limit, is the last one.
pub proof fn law_page_without_link_is_last(
    names: Seq<Seq<char>>,
    last: Option<Seq<char>>,
    n: usize,
    path: Seq<char>,
)
    requires
        n > 0,
        name_page(names, Some(n), last, path).link is None,
    ensures
        name_page(names, Some(n), last, path).names == remaining(names, last),
{
}

/// A union of lists is in ascending order and holds the names of the lists and no
/// others.
pub proof fn law_union_is_sorted(lists: Seq<Seq<Seq<char>>>)
    ensures
        names_ascend(union_of(lists)),
        forall|name: Seq<char>| #[trigger]
            union_of(lists).contains(name) <==> exists|i: int|
                0 <= i < lists.len() && (#[trigger] lists[i]).contains(name),
{
    let same = |l: Seq<Seq<char>>| l;
    let flat = spread(lists, same);
    let keys = sorted_keys(text_keys(flat));
    lemma_sorted_keys(text_keys(flat));
    let out = union_of(lists);
    assert forall|i: int| 0 <= i < keys.len() implies #[trigger] keys[i] == key1(out[i])
        && flat.contains(out[i]) by {
        assert(keys.contains(keys[i]));
        assert(text_keys(flat).contains(keys[i]));
        let j = choose|j: int| 0 <= j < flat.len() && text_keys(flat)[j] == keys[i];
        assert(keys[i] == key1(flat[j]));
        assert(keys[i][0] == flat[j]);
    }
    assert forall|i: int, j: int| 0 <= i < j < out.len() implies text_lt(
        #[trigger] out[i],
        #[trigger] out[j],
    ) by {
        assert(keys[i] == key1(out[i]));
        assert(keys[j] == key1(out[j]));
        assert(key_lt(keys[i], keys[j]));
        reveal_with_fuel(key_lt, 2);
        assert(keys[i].skip(1) =~= Seq::<Seq<char>>::empty());
        assert(keys[j].skip(1) =~= Seq::<Seq<char>>::empty());
    }
    assert forall|name: Seq<char>| #[trigger]
        out.contains(name) <==> exists|i: int|
            0 <= i < lists.len() && (#[trigger] lists[i]).contains(name) by {
        lemma_spread_contains(lists, same, name);
        lemma_text_keys(flat, name);
        assert(flat.contains(name) <==> exists|i: int|
            0 <= i < lists.len() && (#[trigger] same(lists[i])).contains(name));
        if out.contains(name) {
            let i = choose|i: int| 0 <= i < out.len() && out[i] == name;
            assert(keys[i] == key1(out[i]));
            assert(flat.contains(name));
            let k = choose|k: int| 0 <= k < lists.len() && (#[trigger] same(lists[k])).contains(name);
            assert(lists[k].contains(name));
        }
        if exists|i: int| 0 <= i < lists.len() && (#[trigger] lists[i]).contains(name) {
            let k = choose|k: int| 0 <= k < lists.len() && (#[trigger] lists[k]).contains(name);
            assert(same(lists[k]).contains(name));
            assert(flat.contains(name));
            assert(keys.contains(key1(name)));
            let i = choose|i: int| 0 <= i < keys.len() && keys[i] == key1(name);
            assert(out[i] == name);
        }
    }
}

/// A proxy lists the tags of the members that answered, and no others, each once
/// and in ascending order. A member that is missing or could not be read is as good
/// as one without tags.
pub proof fn law_proxy_unites_its_members(lists: Seq<Option<Seq<Seq<char>>>>)
    ensures
        names_ascend(tags_of(TagSourceView::Proxy(lists))),
        forall|tag: Seq<char>| #[trigger]
            tags_of(TagSourceView::Proxy(lists)).contains(tag) <==> exists|i: int|
                0 <= i < lists.len() && (#[trigger] lists[i] matches Some(l) && l.contains(tag)),
{
    let found = lists.filter_map(answered());
    let out = tags_of(TagSourceView::Proxy(lists));
    law_union_is_sorted(found);
    assert forall|tag: Seq<char>| #[trigger]
        out.contains(tag) <==> exists|i: int|
            0 <= i < lists.len() && (#[trigger] lists[i] matches Some(l) && l.contains(tag)) by {
        assert(union_of(found).contains(tag) <==> exists|i: int|
            0 <= i < found.len() && (#[trigger] found[i]).contains(tag));
        if out.contains(tag) {
            let k = choose|k: int| 0 <= k < found.len() && (#[trigger] found[k]).contains(tag);
            lemma_filter_map_contains(lists, answered(), found[k]);
            assert(found.contains(found[k]));
            let i = choose|i: int|
                0 <= i < lists.len() && #[trigger] answered()(lists[i]) == Some(found[k]);
            assert(lists[i] == Some(found[k]));
        }
        if exists|i: int|
            0 <= i < lists.len() && (#[trigger] lists[i] matches Some(l) && l.contains(tag)) {
            let i = choose|i: int|
                0 <= i < lists.len() && (#[trigger] lists[i] matches Some(l) && l.contains(tag));
            let l = lists[i]->Some_0;
            lemma_filter_map_contains(lists, answered(), l);
            assert(answered()(lists[i]) == Some(l));
            assert(found.contains(l));
            let k = choose|k: int| 0 <= k < found.len() && found[k] == l;
            assert(found[k].contains(tag));
        }
    }
}

} // verus!
