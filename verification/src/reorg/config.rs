//! What a run is asked to do.
use crate::reorg::plan::{DeleteItem, DeleteItemView};
use crate::text::{has_prefix, join, joined, list_has, same_text, starts_with};
use vstd::prelude::*;

verus! {

/// Re-home tags to their correct repository.
pub const GROUP_MOVE: &'static str = "move";

/// Delete source copies identical to the canonical copy.
pub const GROUP_REDUNDANT: &'static str = "redundant";

/// Delete older source copies.
pub const GROUP_SUPERSEDED: &'static str = "superseded";

/// Delete source copies that differ from the canonical copy.
pub const GROUP_MISMATCH: &'static str = "mismatch";

/// Delete tags under retired namespaces.
pub const GROUP_RETIRED: &'static str = "retired";

/// Delete non-released tags that the upstream does not serve from the cache.
pub const GROUP_NON_RELEASED: &'static str = "non-released";

/// The selectable action groups, in report order.
pub open spec fn group_names() -> Seq<Seq<char>> {
    seq![
        GROUP_MOVE@,
        GROUP_REDUNDANT@,
        GROUP_SUPERSEDED@,
        GROUP_MISMATCH@,
        GROUP_RETIRED@,
        GROUP_NON_RELEASED@,
    ]
}

/// The selectable action groups, in report order.
pub fn all_groups() -> (r: Vec<String>)
    ensures
        r.deep_view() == group_names(),
{
    let mut out: Vec<String> = Vec::new();
    out.push(GROUP_MOVE.to_string());
    out.push(GROUP_REDUNDANT.to_string());
    out.push(GROUP_SUPERSEDED.to_string());
    out.push(GROUP_MISMATCH.to_string());
    out.push(GROUP_RETIRED.to_string());
    out.push(GROUP_NON_RELEASED.to_string());
    assert(out.deep_view() =~= group_names());
    out
}

/// The options of a run.
#[derive(Debug)]
pub struct ReorgConfig {
    pub rules_path: String,
    /// Action groups to execute; `None` means dry run only. A list that holds
    /// `"all"` selects every group.
    pub apply: Option<Vec<String>>,
    /// Copy in place of moving and skip all destructive actions.
    pub copy: bool,
    /// Skip TLS verification.
    pub insecure: bool,
    /// Print the full per-tag move list.
    pub verbose: bool,
}

/// Whether a selection picks a group.
pub open spec fn selects(apply: Option<Seq<Seq<char>>>, group: Seq<char>) -> bool {
    apply matches Some(sel) && (sel.contains("all"@) || sel.contains(group))
}

impl ReorgConfig {
    /// True when this is a dry run.
    pub fn dry_run(&self) -> (r: bool)
        ensures
            r == (self.apply is None),
    {
        self.apply.is_none()
    }

    /// Whether the named action group was selected for execution.
    pub fn wants(&self, group: &str) -> (r: bool)
        ensures
            r == selects(self.apply.deep_view(), group@),
    {
        match &self.apply {
            Some(sel) => list_has(sel.as_slice(), "all") || list_has(sel.as_slice(), group),
            None => false,
        }
    }
}

/// Whether a name may be given to select groups.
pub open spec fn known_group(g: Seq<char>) -> bool {
    g == "all"@ || group_names().contains(g)
}

/// The error for the first unknown group of a selection.
pub open spec fn selection_error(sel: Seq<Seq<char>>) -> Option<Seq<char>>
    decreases sel.len(),
{
    if sel.len() == 0 {
        None
    } else if !known_group(sel[0]) {
        Some(
            "unknown --apply group '"@ + sel[0] + "'; valid groups: "@ + joined(
                group_names(),
                ", "@,
            ) + " (or 'all')"@,
        )
    } else {
        selection_error(sel.skip(1))
    }
}

/// Check the requested groups: the first unknown one is an error.
pub fn check_selection(apply: &Option<Vec<String>>) -> (r: Result<(), String>)
    ensures
        r is Ok <==> (apply.deep_view() matches Some(sel) ==> selection_error(sel) is None),
        r matches Err(e) ==> selection_error(apply.deep_view()->Some_0) == Some(e@),
{
    let names = all_groups();
    if let Some(sel) = apply {
        let ghost all = sel.deep_view();
        let mut i: usize = 0;
        assert(all.skip(0) =~= all);
        while i < sel.len()
            invariant
                apply.deep_view() == Some(all),
                names.deep_view() == group_names(),
                all == sel.deep_view(),
                i <= sel@.len(),
                selection_error(all) == selection_error(all.skip(i as int)),
            decreases sel@.len() - i,
        {
            let g = sel[i].as_str();
            assert(all.skip(i as int)[0] == g@);
            if !same_text(g, "all") && !list_has(names.as_slice(), g) {
                let mut s = "unknown --apply group '".to_string();
                s.append(g);
                s.append("'; valid groups: ");
                let list = join(names.as_slice(), ", ");
                s.append(list.as_str());
                s.append(" (or 'all')");
                return Err(s);
            }
            assert(all.skip(i as int).skip(1) =~= all.skip(i + 1));
            i = i + 1;
        }
    }
    Ok(())
}

/// The group that a source-side deletion belongs to.
pub open spec fn group_of(d: DeleteItemView) -> Seq<char> {
    if has_prefix(d.reason, "superseded"@) {
        GROUP_SUPERSEDED@
    } else {
        GROUP_REDUNDANT@
    }
}

/// The action group of a source-side deletion: superseded copies are their own
/// group, every other deletion is a redundant drop.
pub fn delete_group(d: &DeleteItem) -> (r: &'static str)
    ensures
        r@ == group_of(d.deep_view()),
{
    if starts_with(d.reason.as_str(), "superseded") {
        GROUP_SUPERSEDED
    } else {
        GROUP_REDUNDANT
    }
}

/// A dry run selects no group at all.
pub proof fn law_dry_run_selects_nothing(apply: Option<Seq<Seq<char>>>, group: Seq<char>)
    requires
        apply is None,
    ensures
        !selects(apply, group),
{
}

/// `all` selects every group.
pub proof fn law_all_selects_everything(sel: Seq<Seq<char>>, group: Seq<char>)
    requires
        sel.contains("all"@),
    ensures
        selects(Some(sel), group),
{
}

} // verus!
