//! What listing, promoting and copying docker tags promise.
use crate::auth::{grant_covers, granted, Capability, RoleRecord};
use crate::docker::closure::{fed, missing_manifest, next_of, parts_of, walk_from, WalkView};
use crate::docker::copy::{
    answers, copy_next, copy_run, run_fits, walk_on, CopyActionView, CopyEventView, CopyStateView,
    TagJobView,
};
use crate::docker::paths::tag_path;
use crate::docker::promote::{
    check_collision, outcome_of, tag_root, tag_steps, was_found, TagStepView,
};
use crate::docker::tags::{
    behind, display_name, name_page, readable, remaining, tag_list_path, tags_of, TagSourceView,
};
use crate::error::{DepotError, DepotErrorView};
use crate::laws::manifest::law_paths;
use crate::seqs::{lemma_filter_contains, lemma_filter_map_contains, result_view};
use crate::service::promote::{CopyTarget, CopyTargetView};
use crate::service::records::{ArtifactKindView, ArtifactRecordView};
use crate::text::{decimal, text_lt};
use vstd::prelude::*;

verus! {

/// A page holds names of the list that sort behind the last one that the caller
/// has, and no more than asked for; a name that is missing from the page stands
/// behind it or was left out for want of room.
pub proof fn law_page_holds_the_names_that_follow(
    names: Seq<Seq<char>>,
    n: Option<usize>,
    last: Option<Seq<char>>,
    path: Seq<char>,
    t: Seq<char>,
)
    ensures
        ({
            let page = name_page(names, n, last, path);
            &&& page.names.contains(t) ==> names.contains(t)
            &&& page.names.contains(t) && last is Some ==> text_lt(last->Some_0, t)
            &&& n matches Some(k) ==> page.names.len() <= k
            &&& names.contains(t) && (last matches Some(l) ==> text_lt(l, t))
                && !page.names.contains(t) ==> n is Some && page.names.len() == n->Some_0
        }),
{
    let left = remaining(names, last);
    if let Some(l) = last {
        lemma_filter_contains(names, behind(l), t);
    }
    assert(left.contains(t) <==> names.contains(t) && (last matches Some(l) ==> text_lt(l, t)));
    let page = name_page(names, n, last, path).names;
    if page.contains(t) {
        let i = choose|i: int| 0 <= i < page.len() && page[i] == t;
        assert(left[i] == t);
    }
}

/// Without a last name and a number the page is the whole list; with a number it is
/// the first so many names.
pub proof fn law_first_page_begins_the_list(names: Seq<Seq<char>>, k: usize, path: Seq<char>)
    ensures
        name_page(names, None, None, path).names == names,
        name_page(names, None, None, path).link is None,
        k <= names.len() ==> name_page(names, Some(k), None, path).names == names.take(k as int),
        k > names.len() ==> name_page(names, Some(k), None, path).names == names,
        name_page(names, Some(k), None, path).link is Some <==> 0 < k < names.len(),
{
    assert(names.take(names.len() as int) =~= names);
}

/// Where names are left behind a page it links to the next one, with the same number
/// and the last name of the page.
pub proof fn law_page_links_to_the_next(
    names: Seq<Seq<char>>,
    n: Option<usize>,
    last: Option<Seq<char>>,
    path: Seq<char>,
    t: Seq<char>,
)
    ensures
        ({
            let page = name_page(names, n, last, path);
            &&& n is None || n == Some(0usize) ==> page.link is None
            &&& n matches Some(k) ==> k > 0 && names.contains(t) && (last matches Some(l)
                ==> text_lt(l, t)) && !page.names.contains(t) ==> page.link is Some
            &&& page.link matches Some(link) ==> page.names.len() > 0 && link == "<"@ + path
                + "?n="@ + decimal(n->Some_0 as nat) + "&last="@ + page.names.last()
                + ">; rel=\"next\""@
        }),
{
    law_page_holds_the_names_that_follow(names, n, last, path, t);
    let left = remaining(names, last);
    if let Some(l) = last {
        lemma_filter_contains(names, behind(l), t);
    }
    if let Some(k) = n {
        if left.len() > k && k > 0 {
            assert(left.take(k as int).last() == left[k - 1]);
        }
    }
}

/// A tag list is named and found by its repository and image.
pub proof fn law_tag_list_is_named_by_its_image(repo: Seq<char>, image: Seq<char>)
    ensures
        display_name(repo, None) == repo,
        display_name(repo, Some(image)) == repo + "/"@ + image,
        tag_list_path(repo, None) == "/v2/"@ + repo + "/tags/list"@,
        tag_list_path(repo, Some(image)) == "/v2/"@ + repo + "/"@ + image + "/tags/list"@,
{
    assert("/v2/"@ + (repo + "/"@ + image) + "/tags/list"@ =~= "/v2/"@ + repo + "/"@ + image
        + "/tags/list"@);
}

/// The tags of a repository of its own are listed as they are.
pub proof fn law_repository_lists_its_tags(tags: Seq<Seq<char>>)
    ensures
        tags_of(TagSourceView::Repo(tags)) == tags,
{
}

/// A role lets its holder read a repository: by name or by "*".
pub open spec fn may_read(roles: Seq<RoleRecord>, repo: Seq<char>) -> bool {
    exists|i: int, j: int|
        0 <= i < roles.len() && 0 <= j < roles[i].capabilities@.len()
            && #[trigger] roles[i].capabilities@[j].capability == Capability::Read && (
        roles[i].capabilities@[j].repo@ == "*"@ || roles[i].capabilities@[j].repo@ == repo)
}

/// The catalog has exactly the docker repositories that the caller may read.
pub proof fn law_catalog_has_what_the_caller_may_read(
    repos: Seq<(Seq<char>, bool)>,
    roles: Seq<RoleRecord>,
    repo: Seq<char>,
)
    ensures
        repos.filter_map(readable(roles)).contains(repo) <==> repos.contains((repo, true))
            && may_read(roles, repo),
{
    let f = readable(roles);
    lemma_filter_map_contains(repos, f, repo);
    law_grant_is_by_name_or_star(roles, repo, Capability::Read);
    assert(granted(roles, repo, Capability::Read) <==> may_read(roles, repo)) by {
        if granted(roles, repo, Capability::Read) {
            let (i, j) = choose|i: int, j: int|
                0 <= i < roles.len() && 0 <= j < roles[i].capabilities@.len()
                    && grant_covers(
                    #[trigger] roles[i].capabilities@[j],
                    repo,
                    Capability::Read,
                );
            assert(roles[i].capabilities@[j].capability == Capability::Read);
        }
    }
    if repos.filter_map(f).contains(repo) {
        let i = choose|i: int| 0 <= i < repos.len() && #[trigger] f(repos[i]) == Some(repo);
        assert(repos[i] == (repo, true));
    }
    if repos.contains((repo, true)) && may_read(roles, repo) {
        let i = choose|i: int| 0 <= i < repos.len() && repos[i] == (repo, true);
        assert(f(repos[i]) == Some(repo));
    }
}

/// A capability is granted exactly where a role has it for the repository, by name
/// or by "*"; no capability stands for another.
pub proof fn law_grant_is_by_name_or_star(
    roles: Seq<RoleRecord>,
    repo: Seq<char>,
    required: Capability,
)
    ensures
        granted(roles, repo, required) <==> exists|i: int, j: int|
            0 <= i < roles.len() && 0 <= j < roles[i].capabilities@.len()
                && #[trigger] roles[i].capabilities@[j].capability == required && (
            roles[i].capabilities@[j].repo@ == "*"@ || roles[i].capabilities@[j].repo@ == repo),
{
    if granted(roles, repo, required) {
        let (i, j) = choose|i: int, j: int|
            0 <= i < roles.len() && 0 <= j < roles[i].capabilities@.len()
                && grant_covers(
                #[trigger] roles[i].capabilities@[j],
                repo,
                required,
            );
        assert(roles[i].capabilities@[j].capability == required);
    }
}

/// A tag's record leads to its digest; without a record the tag is not found, and a
/// record of another kind is a fault in the data.
pub proof fn law_tag_leads_to_its_digest(
    t: CopyTargetView,
    image: Option<Seq<char>>,
    tag: Seq<char>,
    rec: Option<ArtifactRecordView>,
)
    ensures
        rec is None ==> tag_root(t, image, tag, rec) == Err::<Seq<char>, DepotErrorView>(
            DepotErrorView::NotFound(
                "tag '"@ + tag + "' not found in repository '"@ + t.source_repo + "'"@,
            ),
        ),
        rec matches Some(r) ==> (r.kind matches ArtifactKindView::DockerTag { digest, tag: _ }
            ==> tag_root(t, image, tag, rec) == Ok::<Seq<char>, DepotErrorView>(digest)),
        rec matches Some(r) ==> !(r.kind is DockerTag) ==> (tag_root(t, image, tag, rec) matches Err(
            e,
        ) && e is DataIntegrity),
{
}

/// A tag that is there already stops a copy, unless it may be overwritten.
pub proof fn law_tag_that_is_there_stops_a_copy(
    t: CopyTarget,
    tag: &str,
    overwrite: bool,
    taken: bool,
    r: Result<(), DepotError>,
)
    requires
        call_ensures(check_collision, (&t, tag, overwrite, taken), r),
    ensures
        taken && !overwrite ==> result_view(r) == Err::<(), DepotErrorView>(
            DepotErrorView::Conflict(
                "tag '"@ + tag@ + "' already exists in repository '"@ + t.dest_repo@
                    + "' (set overwrite to replace)"@,
            ),
        ),
        !taken || overwrite ==> r is Ok,
{
}

/// What a copy asks for first: the tag's record at its path, then, unless it may
/// overwrite, the record at the same path of the destination.
pub proof fn law_copy_asks_for_the_tag(
    t: CopyTargetView,
    job: TagJobView,
    rec: ArtifactRecordView,
    digest: Seq<char>,
    name: Seq<char>,
)
    requires
        rec.kind == (ArtifactKindView::DockerTag { digest, tag: name }),
    ensures
        ({
            let path = (match job.image {
                Some(i) => i + "/"@,
                None => Seq::empty(),
            }) + "_tags/"@ + job.tag;
            let manifest = (match job.image {
                Some(i) => i + "/"@,
                None => Seq::empty(),
            }) + "_manifests/"@ + digest;
            &&& copy_next(t, job, CopyStateView::Start, CopyEventView::Begin).1
                == CopyActionView::ReadTag(path)
            &&& !job.overwrite ==> copy_next(
                t,
                job,
                CopyStateView::Tag,
                CopyEventView::Tag(Some(rec)),
            ) == (CopyStateView::Dest { root: digest }, CopyActionView::ReadDest(path))
            &&& job.overwrite ==> copy_next(
                t,
                job,
                CopyStateView::Tag,
                CopyEventView::Tag(Some(rec)),
            ).1 == CopyActionView::ReadManifest(manifest)
            &&& copy_next(
                t,
                job,
                CopyStateView::Dest { root: digest },
                CopyEventView::Dest(false),
            ).1 == CopyActionView::ReadManifest(manifest)
            &&& copy_next(
                t,
                job,
                CopyStateView::Dest { root: digest },
                CopyEventView::Dest(true),
            ).1 == CopyActionView::Fail(
                DepotErrorView::Conflict(
                    "tag '"@ + job.tag + "' already exists in repository '"@ + t.dest_repo
                        + "' (set overwrite to replace)"@,
                ),
            )
        }),
{
    let empty = Seq::<char>::empty();
    assert(empty + "_tags/"@ =~= "_tags/"@);
    assert(empty + "_manifests/"@ =~= "_manifests/"@);
    if let Some(i) = job.image {
        law_paths(i, job.tag);
        law_paths(i, digest);
        reveal_strlit("/_tags/");
        reveal_strlit("_tags/");
        reveal_strlit("/_manifests/");
        reveal_strlit("_manifests/");
        reveal_strlit("/");
        assert(i + "/"@ + "_tags/"@ =~= i + "/_tags/"@);
        assert(i + "/"@ + "_manifests/"@ =~= i + "/_manifests/"@);
    } else {
        law_paths(job.tag, job.tag);
        law_paths(digest, digest);
    }
    let w = walk_from(digest);
    assert(w.stack.last() == digest);
    assert(next_of(w).0 == Some(digest));
}

/// A manifest that is missing is named in the error, with its tag and repository.
pub proof fn law_missing_manifest_is_named(digest: Seq<char>, tag: Seq<char>, repo: Seq<char>)
    ensures
        missing_manifest(digest, tag, repo) == DepotErrorView::DataIntegrity(
            "manifest '"@ + digest + "' referenced by tag '"@ + tag + "' is missing in '"@ + repo
                + "'"@,
        ),
{
}

/// While a copy writes, each action is the step that it stands at.
pub proof fn law_copy_writes_its_steps_in_order(
    t: CopyTargetView,
    job: TagJobView,
    root: Seq<char>,
    steps: Seq<TagStepView>,
    at: int,
    found: Seq<bool>,
    e: CopyEventView,
)
    requires
        0 <= at < steps.len(),
        e is Copied || e is Deleted,
    ensures
        ({
            let (next, action) = copy_next(
                t,
                job,
                CopyStateView::Write { root, steps, at, found },
                e,
            );
            &&& at + 1 < steps.len() ==> (steps[at + 1] matches TagStepView::Copy(p) ==> action
                == CopyActionView::Copy(p))
            &&& at + 1 < steps.len() ==> (steps[at + 1] is DeleteTag ==> action is DeleteTag)
            &&& at + 1 == steps.len() ==> next is Finished && (action matches CopyActionView::Done(
                o,
            ) && o.digest == root)
        }),
{
}

/// How many records were copied, by what was answered.
pub open spec fn copies(events: Seq<CopyEventView>) -> nat
    decreases events.len(),
{
    if events.len() == 0 {
        0
    } else {
        copies(events.drop_last()) + if events.last() == CopyEventView::Copied(true) {
            1nat
        } else {
            0
        }
    }
}

/// A copy that is done tells how many records were there to copy.
pub proof fn law_copy_counts_what_it_copied(
    t: CopyTargetView,
    job: TagJobView,
    events: Seq<CopyEventView>,
)
    requires
        run_fits(t, job, events),
        events.len() <= u64::MAX,
    ensures
        ({
            let (s, actions) = copy_run(t, job, events);
            &&& s matches CopyStateView::Write { root: _, steps: _, at: _, found }
                ==> found.filter(was_found()).len() == copies(events) && found.len()
                <= events.len()
            &&& !(s is Write) && !(s is Finished) ==> copies(events) == 0
            &&& actions.len() > 0 ==> (actions.last() matches CopyActionView::Done(o)
                ==> o.copied_records == copies(events))
        }),
    decreases events.len(),
{
    reveal(Seq::filter);
    if events.len() > 0 {
        let before = events.drop_last();
        law_copy_counts_what_it_copied(t, job, before);
        let (s, actions) = copy_run(t, job, before);
        let e = events.last();
        let (next, a) = copy_next(t, job, s, e);
        assert(copies(events) <= events.len()) by {
            lemma_copies(events);
        }
        match s {
            CopyStateView::Write { root, steps, at, found } => {
                if let CopyEventView::Copied(b) = e {
                    found.lemma_filter_push(b, was_found());
                }
            },
            CopyStateView::Manifest { root, walk, digest } => {
                if let CopyEventView::Manifest(Some(j)) = e {
                    lemma_walk_finds_nothing(
                        job,
                        root,
                        fed(walk, digest, parts_of(j)),
                    );
                }
            },
            CopyStateView::Tag => {
                if let CopyEventView::Tag(rec) = e {
                    if let Ok(root) = tag_root(t, job.image, job.tag, rec) {
                        lemma_walk_finds_nothing(job, root, walk_from(root));
                    }
                }
            },
            CopyStateView::Dest { root } => {
                lemma_walk_finds_nothing(job, root, walk_from(root));
            },
            _ => {},
        }
    }
}

/// No more records are copied than there are answers.
proof fn lemma_copies(events: Seq<CopyEventView>)
    ensures
        copies(events) <= events.len(),
    decreases events.len(),
{
    if events.len() > 0 {
        lemma_copies(events.drop_last());
    }
}

/// A walk that ends begins to write with nothing found yet, and is not done.
proof fn lemma_walk_finds_nothing(job: TagJobView, root: Seq<char>, w: WalkView)
    ensures
        ({
            let (s, a) = walk_on(job, root, w);
            &&& s matches CopyStateView::Write { root: _, steps: _, at: _, found } ==> found.len()
                == 0
            &&& !(a is Done)
            &&& s is Write || s is Manifest
        }),
{
    let walk = next_of(w).1;
    let steps = tag_steps(walk, job.image, job.tag, job.delete_source);
    assert(steps.len() > 0);
}

/// The outcome counts the records that were found, part by part.
pub proof fn law_outcome_counts_found_records(digest: Seq<char>, a: Seq<bool>, b: bool)
    requires
        a.len() < u64::MAX,
    ensures
        outcome_of(digest, a).digest == digest,
        outcome_of(digest, Seq::empty()).copied_records == 0,
        outcome_of(digest, a.push(b)).copied_records == outcome_of(digest, a).copied_records + (
        if b {
            1int
        } else {
            0
        }),
{
    reveal(Seq::filter);
    a.lemma_filter_push(b, was_found());
    a.lemma_filter_len(was_found());
}

/// A copy takes only the answer to its last question: of a step that copies whether
/// the record was there, of one that deletes that it is done; at its end it takes
/// none.
pub proof fn law_copy_takes_the_answer_it_asked_for(
    root: Seq<char>,
    steps: Seq<TagStepView>,
    at: int,
    found: Seq<bool>,
    e: CopyEventView,
)
    ensures
        ({
            let s = CopyStateView::Write { root, steps, at, found };
            &&& answers(s, e) ==> 0 <= at < steps.len()
            &&& 0 <= at < steps.len() && steps[at] is Copy ==> (answers(s, e) <==> e is Copied)
            &&& 0 <= at < steps.len() && steps[at] is DeleteTag ==> (answers(s, e) <==> e is Deleted)
        }),
        !answers(CopyStateView::Finished, e),
        answers(CopyStateView::Start, e) <==> e is Begin,
        answers(CopyStateView::Tag, e) <==> e is Tag,
        answers(CopyStateView::Dest { root }, e) <==> e is Dest,
{
}

/// A record that is no tag is told by its path and repository.
pub proof fn law_other_record_is_no_tag(
    t: CopyTargetView,
    image: Option<Seq<char>>,
    tag: Seq<char>,
    rec: ArtifactRecordView,
)
    requires
        !(rec.kind is DockerTag),
    ensures
        tag_root(t, image, tag, Some(rec)) == Err::<Seq<char>, DepotErrorView>(
            DepotErrorView::DataIntegrity(
                "record at '"@ + tag_path(image, tag) + "' in '"@
                    + t.source_repo + "' is not a Docker tag"@,
            ),
        ),
{
}

} // verus!
