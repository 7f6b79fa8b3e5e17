//! Sizes of the repositories that a run involves, before and after.
use crate::reorg::report::say;
use crate::seqs::{
    first_where, lemma_filter_map_step, lemma_first_found, lemma_first_none, lemma_map_step,
    lemma_take_all, push_item,
};
use crate::text::{decimal, number_text, pad_left, pad_right, padded_left, padded_right, same_text};
use vstd::prelude::*;

verus! {

/// A repository as the depot lists it.
#[derive(Debug)]
pub struct RepoInfo {
    pub name: String,
    pub repo_type: String,
    pub format: String,
    pub artifact_count: u64,
    pub total_bytes: u64,
}

/// One repository's measured stats.
#[derive(Debug)]
pub struct RepoStat {
    pub name: String,
    pub repo_type: String,
    pub artifacts: u64,
    pub bytes: u64,
}

/// The contents of a [`RepoStat`].
#[verifier::ext_equal]
pub struct RepoStatView {
    pub name: Seq<char>,
    pub repo_type: Seq<char>,
    pub artifacts: u64,
    pub bytes: u64,
}

impl DeepView for RepoStat {
    type V = RepoStatView;

    open spec fn deep_view(&self) -> RepoStatView {
        RepoStatView {
            name: self.name@,
            repo_type: self.repo_type@,
            artifacts: self.artifacts,
            bytes: self.bytes,
        }
    }
}

/// A snapshot of the repositories in scope, with store-wide totals.
#[derive(Debug)]
pub struct RepoSummary {
    pub repos: Vec<RepoStat>,
    /// Bytes of all repositories that hold artifacts themselves.
    pub logical_sum: u128,
    /// Bytes of the docker repositories among them.
    pub docker_logical: u128,
    /// Name, physical bytes and blob count of each store.
    pub stores: Vec<(String, u64, u64)>,
}

/// The stats of a repository, taken from its last entry.
pub open spec fn stat_of(all: Seq<RepoInfo>, name: Seq<char>) -> Option<RepoStatView>
    decreases all.len(),
{
    if all.len() == 0 {
        None
    } else if all.last().name@ == name {
        Some(
            RepoStatView {
                name,
                repo_type: all.last().repo_type@,
                artifacts: all.last().artifact_count,
                bytes: all.last().total_bytes,
            },
        )
    } else {
        stat_of(all.drop_last(), name)
    }
}

/// Takes the stats of a repository by name.
pub open spec fn stat_by_name(all: Seq<RepoInfo>) -> spec_fn(Seq<char>) -> Option<RepoStatView> {
    |n: Seq<char>| stat_of(all, n)
}

/// Whether a repository counts towards a sum: a proxy holds nothing itself.
pub open spec fn counts_for(r: RepoInfo, docker_only: bool) -> bool {
    r.repo_type@ != "proxy"@ && (docker_only ==> r.format@ == "docker"@)
}

/// The bytes of the repositories that count.
pub open spec fn logical_bytes(all: Seq<RepoInfo>, docker_only: bool) -> nat
    decreases all.len(),
{
    if all.len() == 0 {
        0
    } else {
        logical_bytes(all.drop_last(), docker_only) + (if counts_for(all.last(), docker_only) {
            all.last().total_bytes as nat
        } else {
            0
        })
    }
}

/// The bytes of the repositories that count.
fn sum_bytes(all: &[RepoInfo], docker_only: bool) -> (r: u128)
    ensures
        r == logical_bytes(all@, docker_only),
{
    let mut sum: u128 = 0;
    let mut i: usize = 0;
    assert(all@.take(0) =~= Seq::<RepoInfo>::empty());
    while i < all.len()
        invariant
            i <= all@.len(),
            sum == logical_bytes(all@.take(i as int), docker_only),
            sum <= i * 0xffff_ffff_ffff_ffff,
        decreases all@.len() - i,
    {
        proof {
            assert(all@.take(i + 1).drop_last() =~= all@.take(i as int));
            assert(i * 0xffff_ffff_ffff_ffff + 0xffff_ffff_ffff_ffff <= 0xffff_ffff_ffff_ffff
                * 0xffff_ffff_ffff_ffff) by (nonlinear_arith)
                requires
                    i < 0xffff_ffff_ffff_ffff,
            ;
            assert((i + 1) * 0xffff_ffff_ffff_ffff == i * 0xffff_ffff_ffff_ffff
                + 0xffff_ffff_ffff_ffff) by (nonlinear_arith);
        }
        let r = &all[i];
        if !same_text(r.repo_type.as_str(), "proxy") && (!docker_only || same_text(
            r.format.as_str(),
            "docker",
        )) {
            sum = sum + r.total_bytes as u128;
        }
        i = i + 1;
    }
    assert(all@.take(all@.len() as int) =~= all@);
    sum
}

/// The stats of a repository.
fn find_stat(all: &[RepoInfo], name: &str) -> (r: Option<RepoStat>)
    ensures
        r.deep_view() == stat_of(all@, name@),
{
    let mut i: usize = all.len();
    assert(all@.take(all@.len() as int) =~= all@);
    while i > 0
        invariant
            i <= all@.len(),
            stat_of(all@, name@) == stat_of(all@.take(i as int), name@),
        decreases i,
    {
        proof {
            assert(all@.take(i as int).drop_last() =~= all@.take(i - 1));
        }
        let r = &all[i - 1];
        if same_text(r.name.as_str(), name) {
            return Some(
                RepoStat {
                    name: r.name.clone(),
                    repo_type: r.repo_type.clone(),
                    artifacts: r.artifact_count,
                    bytes: r.total_bytes,
                },
            );
        }
        i = i - 1;
    }
    None
}

/// Measure the repositories in scope. A blob shared by several repositories
/// counts in each of them.
pub fn summarize_repos(
    all: &[RepoInfo],
    scope: &[String],
    stores: Vec<(String, u64, u64)>,
) -> (r: RepoSummary)
    ensures
        r.repos.deep_view() == scope.deep_view().filter_map(stat_by_name(all@)),
        r.logical_sum == logical_bytes(all@, false),
        r.docker_logical == logical_bytes(all@, true),
        r.stores == stores,
{
    let ghost names = scope.deep_view();
    let ghost f = stat_by_name(all@);
    let mut repos: Vec<RepoStat> = Vec::new();
    let mut i: usize = 0;
    assert(repos.deep_view() =~= names.take(0).filter_map(f));
    while i < scope.len()
        invariant
            names == scope.deep_view(),
            f == stat_by_name(all@),
            i <= scope@.len(),
            repos.deep_view() == names.take(i as int).filter_map(f),
        decreases scope@.len() - i,
    {
        proof {
            lemma_filter_map_step(names, f, i as int);
            assert(names[i as int] == scope@[i as int]@);
        }
        if let Some(s) = find_stat(all, scope[i].as_str()) {
            push_item(&mut repos, s);
        }
        i = i + 1;
    }
    proof {
        lemma_take_all(names);
    }
    RepoSummary {
        repos,
        logical_sum: sum_bytes(all, false),
        docker_logical: sum_bytes(all, true),
        stores,
    }
}

/// Two snapshots list the same number of repositories with the same artifact
/// counts.
pub open spec fn same_counts(a: Seq<RepoStatView>, b: Seq<RepoStatView>) -> bool {
    a.len() == b.len() && forall|i: int|
        0 <= i < a.len() ==> (#[trigger] a[i]).artifacts == b[i].artifacts
}

/// Whether the counters have settled between two reads.
pub fn settled(prev: &RepoSummary, cur: &RepoSummary) -> (r: bool)
    ensures
        r == same_counts(cur.repos.deep_view(), prev.repos.deep_view()),
{
    if cur.repos.len() != prev.repos.len() {
        return false;
    }
    let ghost a = cur.repos.deep_view();
    let ghost b = prev.repos.deep_view();
    let mut i: usize = 0;
    while i < cur.repos.len()
        invariant
            a == cur.repos.deep_view(),
            b == prev.repos.deep_view(),
            a.len() == b.len(),
            i <= cur.repos@.len(),
            forall|j: int| 0 <= j < i ==> (#[trigger] a[j]).artifacts == b[j].artifacts,
        decreases cur.repos@.len() - i,
    {
        proof {
            assert(a[i as int] == cur.repos@[i as int].deep_view());
            assert(b[i as int] == prev.repos@[i as int].deep_view());
        }
        if cur.repos[i].artifacts != prev.repos[i].artifacts {
            return false;
        }
        i = i + 1;
    }
    true
}

/// How often the counters are read again while they move.
pub const SETTLE_TRIES: u32 = 10;

/// What to do after the counters were read again.
#[derive(Debug, Clone, Copy, PartialEq, Eq, Structural)]
pub enum SettleStep {
    /// Wait, and read them once more.
    Wait,
    /// Go on with what was read last.
    Done,
}

/// Decide whether to read the counters once more, after `tries` further reads of
/// which `cur` is the last and `prev` the one before: not once they stand still,
/// and not more often than [`SETTLE_TRIES`].
pub fn settle_step(tries: u32, prev: &RepoSummary, cur: &RepoSummary) -> (r: SettleStep)
    ensures
        r == (if same_counts(cur.repos.deep_view(), prev.repos.deep_view()) || tries
            >= SETTLE_TRIES {
            SettleStep::Done
        } else {
            SettleStep::Wait
        }),
{
    if settled(prev, cur) || tries >= SETTLE_TRIES {
        SettleStep::Done
    } else {
        SettleStep::Wait
    }
}

/// A repository with its size written out.
#[derive(Debug)]
pub struct RepoRow {
    pub name: String,
    pub repo_type: String,
    pub artifacts: u64,
    pub size: String,
}

/// The contents of a [`RepoRow`].
#[verifier::ext_equal]
pub struct RepoRowView {
    pub name: Seq<char>,
    pub repo_type: Seq<char>,
    pub artifacts: u64,
    pub size: Seq<char>,
}

impl DeepView for RepoRow {
    type V = RepoRowView;

    open spec fn deep_view(&self) -> RepoRowView {
        RepoRowView {
            name: self.name@,
            repo_type: self.repo_type@,
            artifacts: self.artifacts,
            size: self.size@,
        }
    }
}

/// A snapshot with every size written out.
#[derive(Debug)]
pub struct SummaryRows {
    pub repos: Vec<RepoRow>,
    pub logical: String,
    pub docker: String,
    /// Name, size and blob count of each store.
    pub stores: Vec<(String, String, u64)>,
}

/// The contents of [`SummaryRows`].
#[verifier::ext_equal]
pub struct SummaryRowsView {
    pub repos: Seq<RepoRowView>,
    pub logical: Seq<char>,
    pub docker: Seq<char>,
    pub stores: Seq<(Seq<char>, Seq<char>, u64)>,
}

impl DeepView for SummaryRows {
    type V = SummaryRowsView;

    open spec fn deep_view(&self) -> SummaryRowsView {
        SummaryRowsView {
            repos: self.repos.deep_view(),
            logical: self.logical@,
            docker: self.docker@,
            stores: self.stores.deep_view(),
        }
    }
}

/// The line of one repository in a single snapshot.
pub open spec fn current_row() -> spec_fn(RepoRowView) -> Seq<char> {
    |r: RepoRowView|
        "  "@ + padded_right(r.name, 28) + " "@ + padded_right(r.repo_type, 8) + " "@ + padded_left(
            decimal(r.artifacts as nat),
            12,
        ) + " "@ + padded_left(r.size, 12)
}

/// The line of one store in a single snapshot.
pub open spec fn current_store() -> spec_fn((Seq<char>, Seq<char>, u64)) -> Seq<char> {
    |s: (Seq<char>, Seq<char>, u64)|
        "  store '"@ + s.0 + "' physical total      = "@ + s.1 + " ("@ + decimal(s.2 as nat)
            + " blobs, dedup)"@
}

/// The lines of a single snapshot.
pub open spec fn current_lines(b: SummaryRowsView) -> Seq<Seq<char>> {
    seq![
        "\n================ Repository summary (current) ================"@,
        "  "@ + padded_right("repo"@, 28) + " "@ + padded_right("type"@, 8) + " "@ + padded_left(
            "artifacts"@,
            12,
        ) + " "@ + padded_left("size"@, 12),
    ] + b.repos.map_values(current_row()) + seq![
        "\n  sum(all hosted/cache repos)    = "@ + b.logical,
        "  sum(docker hosted/cache repos) = "@ + b.docker,
    ] + b.stores.map_values(current_store())
}

/// Tells a row by name.
pub open spec fn row_named(name: Seq<char>) -> spec_fn(RepoRowView) -> bool {
    |r: RepoRowView| r.name == name
}

/// Tells a store by name.
pub open spec fn store_named(name: Seq<char>) -> spec_fn((Seq<char>, Seq<char>, u64)) -> bool {
    |s: (Seq<char>, Seq<char>, u64)| s.0 == name
}

/// The line of one repository before and after; one that is gone shows its old
/// numbers again.
pub open spec fn changed_row(after: SummaryRowsView) -> spec_fn(RepoRowView) -> Seq<char> {
    |b: RepoRowView|
        {
            let a = match first_where(after.repos, row_named(b.name)) {
                Some(r) => r,
                None => b,
            };
            "  "@ + padded_right(b.name, 28) + " "@ + padded_right(b.repo_type, 8) + " "@
                + padded_left(decimal(b.artifacts as nat), 9) + " → "@ + padded_left(
                decimal(a.artifacts as nat),
                9,
            ) + " "@ + padded_left(b.size, 10) + " → "@ + padded_left(a.size, 10)
        }
}

/// The line of one store before and after.
pub open spec fn changed_store(after: SummaryRowsView) -> spec_fn(
    (Seq<char>, Seq<char>, u64),
) -> Seq<char> {
    |b: (Seq<char>, Seq<char>, u64)|
        {
            let a = match first_where(after.stores, store_named(b.0)) {
                Some(s) => s,
                None => b,
            };
            "  store '"@ + b.0 + "' physical total      = "@ + b.1 + " ("@ + decimal(b.2 as nat)
                + " blobs) → "@ + a.1 + " ("@ + decimal(a.2 as nat) + " blobs)"@
        }
}

/// The lines of a comparison.
pub open spec fn changed_lines(b: SummaryRowsView, a: SummaryRowsView) -> Seq<Seq<char>> {
    seq![
        "\n================ Repository summary — before → after ================"@,
        "  "@ + padded_right("repo"@, 28) + " "@ + padded_right("type"@, 8) + " "@ + padded_left(
            "artifacts"@,
            21,
        ) + " "@ + padded_left("size"@, 23),
    ] + b.repos.map_values(changed_row(a)) + seq![
        "\n  sum(all hosted/cache repos)    = "@ + b.logical + " → "@ + a.logical,
        "  sum(docker hosted/cache repos) = "@ + b.docker + " → "@ + a.docker,
    ] + b.stores.map_values(changed_store(a))
}

/// Append a padded text with a blank before it.
fn append_right(s: &mut String, t: &str, width: usize)
    ensures
        final(s)@ == old(s)@ + " "@ + padded_left(t@, width as nat),
{
    s.append(" ");
    let p = pad_left(t, width);
    s.append(p.as_str());
}

/// The first two columns of a row.
fn row_start(name: &str, repo_type: &str) -> (s: String)
    ensures
        s@ == "  "@ + padded_right(name@, 28) + " "@ + padded_right(repo_type@, 8),
{
    let a = pad_right(name, 28);
    let b = pad_right(repo_type, 8);
    let mut s = "  ".to_string();
    s.append(a.as_str());
    s.append(" ");
    s.append(b.as_str());
    s
}

/// The lines of a single snapshot.
fn say_current(b: &SummaryRows) -> (out: Vec<String>)
    ensures
        out.deep_view() == current_lines(b.deep_view()),
{
    let mut out: Vec<String> = Vec::new();
    say(&mut out, "\n================ Repository summary (current) ================");
    let mut header = row_start("repo", "type");
    append_right(&mut header, "artifacts", 12);
    append_right(&mut header, "size", 12);
    push_item(&mut out, header);
    let ghost base = out.deep_view();
    let ghost rows = b.repos.deep_view();
    let mut i: usize = 0;
    assert(out.deep_view() =~= base + rows.take(0).map_values(current_row()));
    while i < b.repos.len()
        invariant
            rows == b.repos.deep_view(),
            i <= b.repos@.len(),
            out.deep_view() == base + rows.take(i as int).map_values(current_row()),
        decreases b.repos@.len() - i,
    {
        let r = &b.repos[i];
        proof {
            lemma_map_step(rows, current_row(), i as int);
            assert(rows[i as int] == r.deep_view());
        }
        let n = number_text(r.artifacts);
        let mut line = row_start(r.name.as_str(), r.repo_type.as_str());
        append_right(&mut line, n.as_str(), 12);
        append_right(&mut line, r.size.as_str(), 12);
        push_item(&mut out, line);
        assert(out.deep_view() =~= base + rows.take(i + 1).map_values(current_row()));
        i = i + 1;
    }
    proof {
        lemma_take_all(rows);
    }
    let mut total = "\n  sum(all hosted/cache repos)    = ".to_string();
    total.append(b.logical.as_str());
    push_item(&mut out, total);
    let mut docker = "  sum(docker hosted/cache repos) = ".to_string();
    docker.append(b.docker.as_str());
    push_item(&mut out, docker);
    let ghost base2 = out.deep_view();
    let ghost stores = b.stores.deep_view();
    let mut j: usize = 0;
    assert(out.deep_view() =~= base2 + stores.take(0).map_values(current_store()));
    while j < b.stores.len()
        invariant
            stores == b.stores.deep_view(),
            j <= b.stores@.len(),
            out.deep_view() == base2 + stores.take(j as int).map_values(current_store()),
        decreases b.stores@.len() - j,
    {
        let (name, size, blobs) = &b.stores[j];
        proof {
            lemma_map_step(stores, current_store(), j as int);
            assert(stores[j as int] == (name@, size@, *blobs));
        }
        let n = number_text(*blobs);
        let mut line = "  store '".to_string();
        line.append(name.as_str());
        line.append("' physical total      = ");
        line.append(size.as_str());
        line.append(" (");
        line.append(n.as_str());
        line.append(" blobs, dedup)");
        push_item(&mut out, line);
        assert(out.deep_view() =~= base2 + stores.take(j + 1).map_values(current_store()));
        j = j + 1;
    }
    proof {
        lemma_take_all(stores);
    }
    assert(out.deep_view() =~= current_lines(b.deep_view()));
    out
}

/// The row of a repository.
fn find_row<'a>(rows: &'a [RepoRow], name: &str) -> (r: Option<&'a RepoRow>)
    ensures
        r.deep_view() == first_where(rows.deep_view(), row_named(name@)),
{
    let ghost all = rows.deep_view();
    let ghost p = row_named(name@);
    let mut i: usize = 0;
    while i < rows.len()
        invariant
            all == rows.deep_view(),
            p == row_named(name@),
            i <= rows@.len(),
            forall|j: int| 0 <= j < i ==> !p(#[trigger] all[j]),
        decreases rows@.len() - i,
    {
        assert(all[i as int] == rows@[i as int].deep_view());
        if same_text(rows[i].name.as_str(), name) {
            proof {
                lemma_first_found(all, p, i as int);
            }
            return Some(&rows[i]);
        }
        i = i + 1;
    }
    proof {
        lemma_first_none(all, p);
    }
    None
}

/// The entry of a store.
fn find_store<'a>(stores: &'a [(String, String, u64)], name: &str) -> (r: Option<
    &'a (String, String, u64),
>)
    ensures
        r.deep_view() == first_where(stores.deep_view(), store_named(name@)),
{
    let ghost all = stores.deep_view();
    let ghost p = store_named(name@);
    let mut i: usize = 0;
    while i < stores.len()
        invariant
            all == stores.deep_view(),
            p == store_named(name@),
            i <= stores@.len(),
            forall|j: int| 0 <= j < i ==> !p(#[trigger] all[j]),
        decreases stores@.len() - i,
    {
        assert(all[i as int] == stores@[i as int].deep_view());
        if same_text(stores[i].0.as_str(), name) {
            proof {
                lemma_first_found(all, p, i as int);
            }
            return Some(&stores[i]);
        }
        i = i + 1;
    }
    proof {
        lemma_first_none(all, p);
    }
    None
}

/// The lines of a comparison.
fn say_changed(b: &SummaryRows, a: &SummaryRows) -> (out: Vec<String>)
    ensures
        out.deep_view() == changed_lines(b.deep_view(), a.deep_view()),
{
    let ghost av = a.deep_view();
    let mut out: Vec<String> = Vec::new();
    say(&mut out, "\n================ Repository summary — before → after ================");
    let mut header = row_start("repo", "type");
    append_right(&mut header, "artifacts", 21);
    append_right(&mut header, "size", 23);
    push_item(&mut out, header);
    let ghost base = out.deep_view();
    let ghost rows = b.repos.deep_view();
    let mut i: usize = 0;
    assert(out.deep_view() =~= base + rows.take(0).map_values(changed_row(av)));
    while i < b.repos.len()
        invariant
            av == a.deep_view(),
            rows == b.repos.deep_view(),
            i <= b.repos@.len(),
            out.deep_view() == base + rows.take(i as int).map_values(changed_row(av)),
        decreases b.repos@.len() - i,
    {
        let r = &b.repos[i];
        proof {
            lemma_map_step(rows, changed_row(av), i as int);
            assert(rows[i as int] == r.deep_view());
        }
        let other = match find_row(a.repos.as_slice(), r.name.as_str()) {
            Some(x) => x,
            None => r,
        };
        let n = number_text(r.artifacts);
        let m = number_text(other.artifacts);
        let wide = pad_left(m.as_str(), 9);
        let size = pad_left(other.size.as_str(), 10);
        let mut line = row_start(r.name.as_str(), r.repo_type.as_str());
        append_right(&mut line, n.as_str(), 9);
        line.append(" → ");
        line.append(wide.as_str());
        append_right(&mut line, r.size.as_str(), 10);
        line.append(" → ");
        line.append(size.as_str());
        push_item(&mut out, line);
        assert(out.deep_view() =~= base + rows.take(i + 1).map_values(changed_row(av)));
        i = i + 1;
    }
    proof {
        lemma_take_all(rows);
    }
    let mut total = "\n  sum(all hosted/cache repos)    = ".to_string();
    total.append(b.logical.as_str());
    total.append(" → ");
    total.append(a.logical.as_str());
    push_item(&mut out, total);
    let mut docker = "  sum(docker hosted/cache repos) = ".to_string();
    docker.append(b.docker.as_str());
    docker.append(" → ");
    docker.append(a.docker.as_str());
    push_item(&mut out, docker);
    let ghost base2 = out.deep_view();
    let ghost stores = b.stores.deep_view();
    let mut j: usize = 0;
    assert(out.deep_view() =~= base2 + stores.take(0).map_values(changed_store(av)));
    while j < b.stores.len()
        invariant
            av == a.deep_view(),
            stores == b.stores.deep_view(),
            j <= b.stores@.len(),
            out.deep_view() == base2 + stores.take(j as int).map_values(changed_store(av)),
        decreases b.stores@.len() - j,
    {
        let s = &b.stores[j];
        proof {
            lemma_map_step(stores, changed_store(av), j as int);
            assert(stores[j as int] == s.deep_view());
        }
        let other = match find_store(a.stores.as_slice(), s.0.as_str()) {
            Some(x) => x,
            None => s,
        };
        let n = number_text(s.2);
        let m = number_text(other.2);
        let mut line = "  store '".to_string();
        line.append(s.0.as_str());
        line.append("' physical total      = ");
        line.append(s.1.as_str());
        line.append(" (");
        line.append(n.as_str());
        line.append(" blobs) → ");
        line.append(other.1.as_str());
        line.append(" (");
        line.append(m.as_str());
        line.append(" blobs)");
        push_item(&mut out, line);
        assert(out.deep_view() =~= base2 + stores.take(j + 1).map_values(changed_store(av)));
        j = j + 1;
    }
    proof {
        lemma_take_all(stores);
    }
    assert(out.deep_view() =~= changed_lines(b.deep_view(), a.deep_view()));
    out
}

/// Render a snapshot, or with `after` a comparison.
pub fn print_repo_summary(before: &SummaryRows, after: Option<&SummaryRows>) -> (out: Vec<String>)
    ensures
        out.deep_view() == (match after {
            None => current_lines(before.deep_view()),
            Some(a) => changed_lines(before.deep_view(), a.deep_view()),
        }),
{
    match after {
        None => say_current(before),
        Some(a) => say_changed(before, a),
    }
}

} // verus!
