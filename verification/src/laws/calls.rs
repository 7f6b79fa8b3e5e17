//! What single calls promise of their results.
use crate::apt::signing::{
    can_sign_with, dash_escaped, release_signed, sign_inrelease, sign_release_detached,
};
use crate::audit::is_shared;
use crate::auth::{check_grants, granted, Capability, RoleRecord};
use crate::docker::closure::ClosureWalk;
use crate::docker::manifest::{classify_manifest, config_created, date_step_after, DateStep};
use crate::docker::promote::{delete_tag, read_manifest_json};
use crate::error::{DepotError, DepotErrorView};
use crate::gc::docker::{deleted_count, docker_gc, DockerRecords, GcPlan};
use crate::helm::promote::delete_chart;
use crate::json::{json_document, JsonView};
use crate::laws::apt::law_signed_release_holds_the_text;
use crate::laws::manifest::{has_text, law_member_is_read, lemma_sum_contains};
use crate::laws::plan::begins_with_one;
use crate::laws::rules::{is_group_name, law_selection_names_groups};
use crate::laws::text::between;
use crate::laws::upstream::{
    law_pollution_is_split_by_the_pattern, law_pollution_is_what_the_upstream_lacks,
};
use crate::ordered::KeySet;
use crate::reorg::compile::CompiledGroup;
use crate::reorg::config::check_selection;
use crate::reorg::execute::{applied_line, report, StagingKind, StagingOp, Tally};
use crate::reorg::patterns::{regex_matches, TagPattern};
use crate::reorg::plan::{ConditionalDelete, ReconcileItem, TagRefView};
use crate::reorg::report::full_name;
use crate::reorg::resolve::{
    check_target, dates_needed, CheckTarget, DatesNeeded, FoundCopy, ResolvedPlan, ResolvedView,
};
use crate::reorg::review::{pulled_before, pulled_within};
use crate::reorg::upstream::{check_format, is_released, is_unreleased, polluted};
use crate::reorg_helm::{authority_needed, ApplySelection, HelmStep, HelmTally, Plan, PlanView};
use crate::seqs::result_view;
use crate::service::promote::removal_delta;
use crate::service::records::ArtifactRecord;
use crate::text::decimal;
use crate::time::Timestamp;
use vstd::prelude::*;

verus! {

/// A plan has a version that only the authority can confirm.
pub open spec fn asks_the_authority(p: PlanView) -> bool {
    exists|i: int| 0 <= i < p.ops.len() && (#[trigger] p.ops[i]).action is DeleteIfOnAuthority
}

/// The authority is needed where deletions that it confirms are selected and planned;
/// then it has to be configured.
pub proof fn law_authority_is_needed_to_confirm(
    plan: Plan,
    sel: ApplySelection,
    configured: bool,
    r: Result<bool, String>,
)
    requires
        call_ensures(authority_needed, (&plan, &sel, configured), r),
    ensures
        !sel.verify_deletes ==> r == Ok::<bool, String>(false),
        !asks_the_authority(plan.deep_view()) ==> r == Ok::<bool, String>(false),
        sel.verify_deletes && asks_the_authority(plan.deep_view()) && configured ==> r == Ok::<
            bool,
            String,
        >(true),
        sel.verify_deletes && asks_the_authority(plan.deep_view()) && !configured ==> r is Err,
{
}

/// Access is denied exactly where no role grants the capability on the repository.
pub proof fn law_access_needs_a_grant(
    roles: &[RoleRecord],
    repo: &str,
    required: Capability,
    r: Result<(), DepotError>,
)
    requires
        call_ensures(check_grants, (roles, repo, required), r),
    ensures
        r is Ok <==> granted(roles@, repo@, required),
        r matches Err(e) ==> e is Forbidden,
{
    if let Err(e) = r {
        assert(e.deep_view() is Forbidden);
    }
}

/// A tag that one member holds alone is not shared.
pub proof fn law_shared_tags_have_two_holders(members: &[usize], r: bool)
    requires
        call_ensures(is_shared, (members,), r),
    ensures
        members@.len() < 2 ==> !r,
        members@.len() > 1 ==> r,
{
}

/// An insight image is looked up at the upstream, any other in its check repository.
pub proof fn law_insight_images_are_looked_up_upstream(rec: ReconcileItem, r: CheckTarget)
    requires
        call_ensures(check_target, (&rec,), r),
    ensures
        rec.deep_view().absent is Flag ==> r is Upstream,
        !(rec.deep_view().absent is Flag) ==> (r matches CheckTarget::Repo(n) && n@
            == rec.deep_view().check_repo),
{
}

/// Dates are needed where they are recorded or compared: that of the source where it
/// is flagged, redundant or differs, that of the check copy where it differs.
pub proof fn law_dates_are_needed_where_compared(
    rec: ReconcileItem,
    found: Option<FoundCopy>,
    digest: &str,
    r: DatesNeeded,
)
    requires
        call_ensures(dates_needed, (&rec, &found, digest), r),
    ensures
        ({
            let item = rec.deep_view();
            match found.deep_view() {
                None => (r.source <==> item.absent is Flag) && !r.check,
                Some(f) => if f.digest.len() > 0 && f.digest == digest@ {
                    !r.check && (r.source <==> item.tag.source_repo != item.check_repo)
                } else {
                    r.source && r.check
                },
            }
        }),
{
}

/// A selection passes where it names groups only; no selection is a dry run and
/// passes.
pub proof fn law_selection_of_groups_passes(apply: Option<Vec<String>>, r: Result<(), String>)
    requires
        call_ensures(check_selection, (&apply,), r),
    ensures
        apply is None ==> r is Ok,
        apply matches Some(sel) ==> (r is Ok <==> forall|i: int|
            0 <= i < sel.deep_view().len() ==> is_group_name(#[trigger] sel.deep_view()[i])),
{
    if let Some(sel) = apply {
        law_selection_names_groups(sel.deep_view());
        assert(apply.deep_view() == Some(sel.deep_view()));
    } else {
        assert(apply.deep_view() is None);
    }
}

/// Only docker groups are supported.
pub proof fn law_only_docker_is_supported(group: CompiledGroup, r: Result<(), String>)
    requires
        call_ensures(check_format, (&group,), r),
    ensures
        group.deep_view().format == "docker"@ ==> r is Ok,
        group.deep_view().format != "docker"@ ==> r is Err,
{
}

/// A pull counts as within the window or as before it, never as both; one that is
/// not known as neither.
pub proof fn law_pull_is_within_or_before(days: Option<i64>, window: u32, w: bool, b: bool)
    requires
        call_ensures(pulled_within, (days, window), w),
        call_ensures(pulled_before, (days, window), b),
    ensures
        days is None ==> !w && !b,
        days matches Some(d) ==> w != b && (d == window ==> w) && (d <= 0 ==> w) && (d > window
            ==> b),
{
}

/// A run tells how many operations succeeded and failed.
pub proof fn law_run_tells_its_numbers(tally: Tally, r: String)
    requires
        call_ensures(applied_line, (&tally,), r),
    ensures
        r@ == "\nApplied: "@ + decimal(tally.ok as nat) + " succeeded, "@ + decimal(
            tally.failed as nat,
        ) + " failed."@,
{
}

/// The manifest of a record is in its blob.
pub proof fn law_manifest_is_in_the_blob(rec: Option<&ArtifactRecord>, r: Option<String>)
    requires
        call_ensures(read_manifest_json, (rec,), r),
    ensures
        rec is None ==> r is None,
        rec matches Some(a) ==> (a.deep_view().blob_id is None ==> r is None),
        rec matches Some(a) ==> (a.deep_view().blob_id matches Some(id) ==> id.len() > 0 ==> (
        r matches Some(b) && b@ == id)),
{
    assert(r.deep_view() is Some <==> r is Some);
}

/// A deleted record counts as one less, with its size; where there was none nothing
/// changes.
pub proof fn law_deleted_record_counts_less(
    old_tag: Option<&ArtifactRecord>,
    old_chart: Option<&ArtifactRecord>,
    t: Option<(i64, i64)>,
    c: Option<(i64, i64)>,
    size: u64,
    d: (i64, i64),
)
    requires
        call_ensures(delete_tag, (old_tag,), t),
        call_ensures(delete_chart, (old_chart,), c),
        call_ensures(removal_delta, (size,), d),
        size < 0x8000_0000_0000_0000,
    ensures
        old_tag is None ==> t is None,
        old_chart is None ==> c is None,
        old_tag matches Some(a) ==> (a.size < 0x8000_0000_0000_0000 ==> (t matches Some(x) && x.0
            == -1 && x.1 == -(a.size as int))),
        old_chart matches Some(a) ==> (a.size < 0x8000_0000_0000_0000 ==> (c matches Some(x) && x.0
            == -1 && x.1 == -(a.size as int))),
        d.0 == -1 && d.1 == -(size as int),
{
}

/// What is no document refers to nothing, has no parts and no date.
pub proof fn law_no_document_has_no_parts(
    body: &[u8],
    parts: (Vec<String>, Vec<String>),
    descended: bool,
    step: DateStep,
    created: Option<String>,
)
    requires
        json_document(body@) is None,
        call_ensures(classify_manifest, (body,), parts),
        call_ensures(date_step_after, (body, descended), step),
        call_ensures(config_created, (body,), created),
    ensures
        parts.0.deep_view().len() == 0 && parts.1.deep_view().len() == 0,
        step.deep_view() is Unknown,
        created is None,
{
    assert(created.deep_view() is Some <==> created is Some);
}

/// The date of a configuration is what its document says was created.
pub proof fn law_date_is_what_the_configuration_says(
    body: &[u8],
    j: JsonView,
    date: Seq<char>,
    created: Option<String>,
)
    requires
        json_document(body@) == Some(j),
        has_text(j, "created"@, date),
        call_ensures(config_created, (body,), created),
    ensures
        created matches Some(d) && d@ == date,
{
    law_member_is_read(j, "created"@);
    assert(created.deep_view() == Some(date));
    assert(created.deep_view() is Some <==> created is Some);
}

/// Untagged manifests are collected only where that is asked for.
pub proof fn law_manifests_stay_unless_asked_for(
    records: DockerRecords,
    texts: &[Option<String>],
    filter: bloomfilter::Bloom<[u8]>,
    cutoff: Timestamp,
    r: GcPlan,
)
    requires
        call_ensures(docker_gc, (&records, texts, filter, cutoff, false), r),
    ensures
        r.manifests@.len() == 0,
{
    assert(r.manifests.deep_view().len() == r.manifests@.len());
}

/// A dry run deletes nothing; another deletes everything that was found.
pub proof fn law_dry_run_deletes_nothing(plan: GcPlan, dry_run: bool, r: u128)
    requires
        call_ensures(deleted_count, (&plan, dry_run), r),
    ensures
        dry_run ==> r == 0,
        !dry_run ==> r == plan.blobs@.len() + plan.manifests@.len(),
{
}

/// An inline release holds the release text, escaped, between its headers; a
/// detached signature stands alone.
pub proof fn law_signed_files(
    armor: &str,
    text: &str,
    inline: Result<String, DepotError>,
    detached: Result<String, DepotError>,
)
    requires
        call_ensures(sign_inrelease, (armor, text), inline),
        call_ensures(sign_release_detached, (armor, text), detached),
    ensures
        inline matches Ok(m) ==> can_sign_with(armor@) && holds_text(m@, text@),
        detached matches Ok(g) ==> can_sign_with(armor@) && begins_signature(g@),
{
    if let Ok(m) = inline {
        let whole = choose|whole: Result<(Seq<char>, Seq<char>), DepotErrorView>|
            #[trigger] release_signed(whole, armor@, text@) && result_view(
                inline,
            ) == match whole {
                Ok(p) => Ok(p.0),
                Err(e) => Err(e),
            };
        assert(whole is Ok);
        law_signed_release_holds_the_text(whole->Ok_0.0, whole->Ok_0.1, armor@, text@);
    }
    if let Ok(g) = detached {
        let whole = choose|whole: Result<(Seq<char>, Seq<char>), DepotErrorView>|
            #[trigger] release_signed(whole, armor@, text@) && result_view(
                detached,
            ) == match whole {
                Ok(p) => Ok(p.1),
                Err(e) => Err(e),
            };
        assert(whole is Ok);
        law_signed_release_holds_the_text(whole->Ok_0.0, whole->Ok_0.1, armor@, text@);
    }
}

/// A message holds a text, escaped, in front of its signature.
pub open spec fn holds_text(message: Seq<char>, text: Seq<char>) -> bool {
    exists|head: Seq<char>, tail: Seq<char>| #[trigger]
        between(
            message,
            head,
            "\n\n"@ + dash_escaped(text) + "\n-----BEGIN PGP SIGNATURE-----\n"@,
            tail,
        )
}

/// A text begins as a signature does.
pub open spec fn begins_signature(signature: Seq<char>) -> bool {
    exists|rest: Seq<char>| signature == #[trigger] ("-----BEGIN PGP SIGNATURE-----\n"@ + rest)
}

/// An operation counts as done or as failed, once, and is told by its verb and tag; a
/// failure with its reason.
pub proof fn law_operation_is_counted_once(
    tally: &mut Tally,
    op: StagingOp,
    error: Option<&str>,
    line: String,
)
    requires
        call_ensures(report, (tally, &op, error), line),
    ensures
        ({
            let t = op.deep_view().tag;
            let verb = match op.kind {
                StagingKind::Copy => "copy"@,
                StagingKind::Move => "move"@,
                StagingKind::Delete => "delete"@,
            };
            let name = t.source_repo + "/"@ + t.image + ":"@ + t.tag;
            &&& error is None ==> final(tally).ok == old(tally).ok + 1 && final(tally).failed
                == old(tally).failed && line@ == "  "@ + verb + " ok: "@ + name
            &&& error matches Some(e) ==> final(tally).ok == old(tally).ok && final(tally).failed
                == old(tally).failed + 1 && line@ == "  "@ + verb + " FAILED: "@ + name + ": "@
                + e@
        }),
{
    reveal_strlit("copy");
    let t = op.deep_view().tag;
    let name = t.source_repo + "/"@ + t.image + ":"@ + t.tag;
    assert(full_name(t) =~= name);
}

/// Where caches could not be compared the reason is noted: an earlier one stands
/// where there is no authority; nothing else changes.
pub proof fn law_reason_for_no_comparison_is_noted(
    p: &mut ResolvedPlan,
    ready: bool,
    known: bool,
    r: (),
)
    requires
        call_ensures(ResolvedPlan::note_comparison, (p, ready, known), r),
    ensures
        ({
            let before = old(p).deep_view();
            let after = final(p).deep_view();
            &&& ready && known ==> after == before
            &&& ready && !known ==> after.non_released_note == Some(
                "no `released` pattern in rules"@,
            )
            &&& !ready ==> after.non_released_note is Some
            &&& !ready && before.non_released_note is Some ==> after.non_released_note
                == before.non_released_note
            &&& !ready && before.non_released_note is None ==> after.non_released_note == Some(
                "no [check_authority] upstream configured"@,
            )
            &&& after == (ResolvedView { non_released_note: after.non_released_note, ..before })
        }),
{
}

/// Comparing a cache finds its pollution: a first-party tag that the upstream lacks
/// is to be copied there where the released pattern matches it, and else deleted; no
/// other tag is touched.
pub proof fn law_comparing_finds_the_pollution(
    p: &mut ResolvedPlan,
    repo: &str,
    tags: &[(String, String)],
    prefixes: &[String],
    upstream: KeySet<String>,
    released: TagPattern,
    r: (),
    t: TagRefView,
)
    requires
        call_ensures(
            ResolvedPlan::compare_cache,
            (p, repo, tags, prefixes, &upstream, &released),
            r,
        ),
        !old(p).deep_view().copy_upstream.contains(t),
        !old(p).deep_view().non_released.contains(t),
    ensures
        ({
            let after = final(p).deep_view();
            let found = t.source_repo == repo@ && tags.deep_view().contains((t.image, t.tag))
                && begins_with_one(prefixes.deep_view(), t.image) && !upstream@.contains(
                seq![t.image + ":"@ + t.tag],
            );
            &&& after.copy_upstream.contains(t) <==> found && regex_matches(released@, t.tag)
            &&& after.non_released.contains(t) <==> found && !regex_matches(released@, t.tag)
            &&& after.moves == old(p).deep_view().moves && after.deletes == old(
                p,
            ).deep_view().deletes
        }),
{
    let found = polluted(repo@, tags.deep_view(), prefixes.deep_view(), upstream@);
    law_pollution_is_what_the_upstream_lacks(
        repo@,
        tags.deep_view(),
        prefixes.deep_view(),
        upstream@,
        t,
    );
    law_pollution_is_split_by_the_pattern(found, released@, t);
    lemma_sum_contains(
        old(p).deep_view().copy_upstream,
        found.filter(is_released(released@)),
        t,
    );
    lemma_sum_contains(
        old(p).deep_view().non_released,
        found.filter(is_unreleased(released@)),
        t,
    );
}

/// Each step that was done counts once, under its kind.
pub proof fn law_helm_steps_are_counted(tally: &mut HelmTally, step: HelmStep, r: ())
    requires
        call_ensures(HelmTally::count, (tally, &step), r),
        old(tally).moved < u64::MAX,
        old(tally).deleted < u64::MAX,
        old(tally).verified_deleted < u64::MAX,
        old(tally).skipped_missing < u64::MAX,
    ensures
        ({
            let kind = step.deep_view();
            &&& final(tally).moved == old(tally).moved + (if kind is Move {
                1int
            } else {
                0
            })
            &&& final(tally).deleted == old(tally).deleted + (if kind is Delete {
                1int
            } else {
                0
            })
            &&& final(tally).verified_deleted == old(tally).verified_deleted + (
            if kind is VerifiedDelete {
                1int
            } else {
                0
            })
            &&& final(tally).skipped_missing == old(tally).skipped_missing + (if kind is Skip {
                1int
            } else {
                0
            })
        }),
{
}

/// A missing manifest stops a walk and leaves it as it is.
pub proof fn law_missing_manifest_stops_the_walk(
    walk: &mut ClosureWalk,
    digest: String,
    json: Option<&[u8]>,
    tag: &str,
    repo: &str,
    r: Result<(), DepotError>,
)
    requires
        call_ensures(ClosureWalk::feed, (walk, digest, json, tag, repo), r),
    ensures
        json is None ==> final(walk).deep_view() == old(walk).deep_view() && (r matches Err(e)
            && e is DataIntegrity),
        json is Some ==> r is Ok && final(walk).deep_view().manifests == old(
            walk,
        ).deep_view().manifests.push(digest@),
{
    if let Err(e) = r {
        assert(result_view(r) == Err::<(), DepotErrorView>(e.deep_view()));
    }
}

/// A conditional delete keeps a tag that is present and deletes one that is not.
pub proof fn law_conditional_delete_is_settled(
    p: &mut ResolvedPlan,
    cd: ConditionalDelete,
    present: bool,
    r: (),
)
    requires
        call_ensures(ResolvedPlan::settle_conditional, (p, cd, present), r),
    ensures
        ({
            let before = old(p).deep_view();
            let after = final(p).deep_view();
            &&& present ==> after.kept == before.kept.push(cd.deep_view().tag) && after.deletes
                == before.deletes
            &&& !present ==> after.kept == before.kept && after.deletes.len()
                == before.deletes.len() + 1 && after.deletes.last().tag == cd.deep_view().tag
                && after.deletes.last().reason == "absent from "@ + cd.deep_view().check_repo
                + " (delete-if-absent)"@
        }),
{
}

} // verus!
