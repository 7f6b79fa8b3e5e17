//! Helm chart repository reorganization.
//!
//! A chart version is a single record, so there is nothing to walk. Every
//! first-party version is classified by ordered version-class rules; third-party
//! charts and versions that no rule covers are left untouched. A released
//! version is dropped only where the upstream authority serves the identical
//! digest.
use crate::ordered::{
    ascending, key1, key3, key_lt, keys_of, lemma_rank, lemma_rank_unique, lemma_sorted_keys,
    list_keys, lookup, put, sorted_keys, tally, tally_of, KeySet, OrderedMap,
};
use crate::reorg::compile::{has_any_prefix, under_prefix};
use crate::reorg::patterns::{compile_regex, regex_compiles, regex_matches, TagPattern};
use crate::reorg::report::{append_count, say};
use crate::seqs::{
    collect_ok, first_where, lemma_collect_err, lemma_collect_step, lemma_filter_map_contains,
    lemma_filter_map_push, lemma_filter_map_step, lemma_filter_step, lemma_first_found,
    lemma_first_none, lemma_map_step, lemma_spread_step, lemma_take_all, lemma_take_push, push_all,
    push_item, result_view, spread,
};
use crate::text::{
    count_text, decimal, list_has, number_text, pad_left, padded_left, pieces, same_text, split_all,
    trim, trimmed,
};
use vstd::prelude::*;

verus! {

/// One version of a chart, as an index lists it.
#[derive(Debug)]
pub struct ChartVersion {
    pub name: String,
    pub version: String,
    /// The advertised digest; may be empty.
    pub digest: String,
}

/// The contents of a [`ChartVersion`].
#[verifier::ext_equal]
pub struct ChartVersionView {
    pub name: Seq<char>,
    pub version: Seq<char>,
    pub digest: Seq<char>,
}

impl DeepView for ChartVersion {
    type V = ChartVersionView;

    open spec fn deep_view(&self) -> ChartVersionView {
        ChartVersionView { name: self.name@, version: self.version@, digest: self.digest@ }
    }
}

impl Clone for ChartVersion {
    fn clone(&self) -> (r: Self)
        ensures
            r == *self,
    {
        ChartVersion {
            name: self.name.clone(),
            version: self.version.clone(),
            digest: self.digest.clone(),
        }
    }
}

/// What to do with a matched chart version.
#[derive(Debug, PartialEq, Eq)]
pub enum HelmAction {
    /// Move to the named destination repo.
    Move { dest: String },
    /// Delete outright.
    Delete,
    /// Delete, but only where the authority serves the identical digest.
    DeleteIfOnAuthority,
}

/// The contents of a [`HelmAction`].
pub enum HelmActionView {
    Move { dest: Seq<char> },
    Delete,
    DeleteIfOnAuthority,
}

impl DeepView for HelmAction {
    type V = HelmActionView;

    open spec fn deep_view(&self) -> HelmActionView {
        match self {
            HelmAction::Move { dest } => HelmActionView::Move { dest: dest@ },
            HelmAction::Delete => HelmActionView::Delete,
            HelmAction::DeleteIfOnAuthority => HelmActionView::DeleteIfOnAuthority,
        }
    }
}

impl Clone for HelmAction {
    fn clone(&self) -> (r: Self)
        ensures
            r == *self,
    {
        match self {
            HelmAction::Move { dest } => HelmAction::Move { dest: dest.clone() },
            HelmAction::Delete => HelmAction::Delete,
            HelmAction::DeleteIfOnAuthority => HelmAction::DeleteIfOnAuthority,
        }
    }
}

/// One classification rule: a version class and what to do with it.
#[derive(Debug)]
pub struct HelmRule {
    /// Named pattern matched against the version.
    pub class: String,
    /// Destination repo for a move.
    pub dest: Option<String>,
    /// `move` (the default), `delete`, or `delete-if-on-authority`.
    pub action: Option<String>,
}

/// The rules of one source repository.
#[derive(Debug)]
pub struct HelmGroup {
    /// Source repository to drain.
    pub source: String,
    /// Ordered rules; the first match wins.
    pub rules: Vec<HelmRule>,
    /// The repository is to be retired; informational only.
    pub retire: bool,
}

/// Where released charts are looked up before the local copy is deleted: the
/// upstream registry itself, never a local cache.
#[derive(Debug)]
pub struct AuthorityConfig {
    /// Base URL of the upstream depot.
    pub url: String,
    /// Hosted repo on that upstream holding released charts.
    pub repo: String,
}

/// A whole helm rules file.
#[derive(Debug)]
pub struct HelmRulesFile {
    /// Named version-class regexes.
    pub patterns: OrderedMap<String, String>,
    /// First-party chart-name prefixes; other charts are never touched.
    pub first_party: Vec<String>,
    /// Upstream authority for `delete-if-on-authority`.
    pub authority: Option<AuthorityConfig>,
    /// Per-source-repo rules.
    pub groups: Vec<HelmGroup>,
}

/// What is wrong with a helm rules file.
#[derive(Debug)]
pub enum HelmRulesError {
    /// A pattern of this name is no regex.
    BadPattern(String),
    /// A group refers to a pattern that does not exist.
    UnknownPattern(String, String),
    /// A rule of a group is a move without a destination.
    MoveNeedsDest(String, String),
    UnknownAction(String),
}

/// The contents of a [`HelmRulesError`].
pub enum HelmRulesErrorView {
    BadPattern(Seq<char>),
    UnknownPattern(Seq<char>, Seq<char>),
    MoveNeedsDest(Seq<char>, Seq<char>),
    UnknownAction(Seq<char>),
}

impl DeepView for HelmRulesError {
    type V = HelmRulesErrorView;

    open spec fn deep_view(&self) -> HelmRulesErrorView {
        match self {
            HelmRulesError::BadPattern(n) => HelmRulesErrorView::BadPattern(n@),
            HelmRulesError::UnknownPattern(g, c) => HelmRulesErrorView::UnknownPattern(g@, c@),
            HelmRulesError::MoveNeedsDest(g, c) => HelmRulesErrorView::MoveNeedsDest(g@, c@),
            HelmRulesError::UnknownAction(a) => HelmRulesErrorView::UnknownAction(a@),
        }
    }
}

impl HelmRulesErrorView {
    /// The message shown for an error.
    pub open spec fn message(self) -> Seq<char> {
        match self {
            HelmRulesErrorView::BadPattern(n) => "bad regex for pattern '"@ + n + "'"@,
            HelmRulesErrorView::UnknownPattern(g, c) => "group '"@ + g
                + "' references unknown pattern '"@ + c + "'"@,
            HelmRulesErrorView::MoveNeedsDest(g, c) => "group '"@ + g + "' rule for class '"@ + c
                + "' is a move but has no dest"@,
            HelmRulesErrorView::UnknownAction(a) => "unknown action '"@ + a + "'"@,
        }
    }
}

impl HelmRulesError {
    /// The message shown for this error.
    pub fn message(&self) -> (s: String)
        ensures
            s@ == self.deep_view().message(),
    {
        match self {
            HelmRulesError::BadPattern(n) => {
                let mut s = "bad regex for pattern '".to_string();
                s.append(n.as_str());
                s.append("'");
                s
            },
            HelmRulesError::UnknownPattern(g, c) => {
                let mut s = "group '".to_string();
                s.append(g.as_str());
                s.append("' references unknown pattern '");
                s.append(c.as_str());
                s.append("'");
                s
            },
            HelmRulesError::MoveNeedsDest(g, c) => {
                let mut s = "group '".to_string();
                s.append(g.as_str());
                s.append("' rule for class '");
                s.append(c.as_str());
                s.append("' is a move but has no dest");
                s
            },
            HelmRulesError::UnknownAction(a) => {
                let mut s = "unknown action '".to_string();
                s.append(a.as_str());
                s.append("'");
                s
            },
        }
    }
}

/// The versions of a parsed index: every chart's versions, charts in ascending
/// order of their key.
pub fn index_versions(entries: &OrderedMap<String, Vec<ChartVersion>>) -> (out: Vec<ChartVersion>)
    ensures
        out.deep_view() == spread(entries@, chart_versions()),
{
    let ghost es = entries@;
    let mut out: Vec<ChartVersion> = Vec::new();
    let mut i: usize = 0;
    assert(out.deep_view() =~= spread(es.take(0), chart_versions()));
    while i < entries.len()
        invariant
            es == entries@,
            i <= es.len(),
            out.deep_view() == spread(es.take(i as int), chart_versions()),
        decreases es.len() - i,
    {
        let versions = entries.value_at(i);
        let ghost base = out.deep_view();
        let ghost vs = versions.deep_view();
        proof {
            lemma_spread_step(es, chart_versions(), i as int);
        }
        let mut k: usize = 0;
        assert(out.deep_view() =~= base + vs.take(0));
        while k < versions.len()
            invariant
                vs == versions.deep_view(),
                k <= versions@.len(),
                out.deep_view() == base + vs.take(k as int),
            decreases versions@.len() - k,
        {
            proof {
                lemma_take_push(vs, k as int);
            }
            push_item(&mut out, versions[k].clone());
            assert(out.deep_view() =~= base + vs.take(k + 1));
            k = k + 1;
        }
        proof {
            lemma_take_all(vs);
        }
        i = i + 1;
    }
    proof {
        lemma_take_all(es);
    }
    out
}

/// The versions of one index entry.
pub open spec fn chart_versions() -> spec_fn((Seq<Seq<char>>, Seq<ChartVersionView>)) -> Seq<
    ChartVersionView,
> {
    |e: (Seq<Seq<char>>, Seq<ChartVersionView>)| e.1
}

/// Compiled rules ready to classify versions.
#[derive(Debug)]
pub struct Compiled {
    pub patterns: OrderedMap<String, TagPattern>,
    pub first_party: Vec<String>,
    pub authority: Option<AuthorityConfig>,
    pub groups: Vec<CompiledGroup>,
}

/// The compiled rules of one source repository.
#[derive(Debug)]
pub struct CompiledGroup {
    pub source: String,
    /// Class name and action of each rule.
    pub rules: Vec<(String, HelmAction)>,
    pub retire: bool,
}

/// The contents of a [`CompiledGroup`].
#[verifier::ext_equal]
pub struct CompiledGroupView {
    pub source: Seq<char>,
    pub rules: Seq<(Seq<char>, HelmActionView)>,
    pub retire: bool,
}

impl DeepView for CompiledGroup {
    type V = CompiledGroupView;

    open spec fn deep_view(&self) -> CompiledGroupView {
        CompiledGroupView {
            source: self.source@,
            rules: self.rules.deep_view(),
            retire: self.retire,
        }
    }
}

/// What compiling a pattern gives: its source again, or the error.
pub open spec fn pattern_result() -> spec_fn((Seq<Seq<char>>, Seq<char>)) -> Result<
    (Seq<Seq<char>>, Seq<char>),
    HelmRulesErrorView,
> {
    |e: (Seq<Seq<char>>, Seq<char>)|
        if regex_compiles(e.1) {
            Ok(e)
        } else {
            Err(HelmRulesErrorView::BadPattern(e.0[0]))
        }
}

/// The action of a rule.
pub open spec fn rule_action(source: Seq<char>, r: HelmRule) -> Result<
    HelmActionView,
    HelmRulesErrorView,
> {
    match r.action.deep_view() {
        Some(a) if a == "delete"@ => Ok(HelmActionView::Delete),
        Some(a) if a == "delete-if-on-authority"@ => Ok(HelmActionView::DeleteIfOnAuthority),
        Some(a) if a != "move"@ => Err(HelmRulesErrorView::UnknownAction(a)),
        _ => match r.dest.deep_view() {
            Some(dest) => Ok(HelmActionView::Move { dest }),
            None => Err(HelmRulesErrorView::MoveNeedsDest(source, r.class@)),
        },
    }
}

/// What compiling a rule gives.
pub open spec fn rule_result(
    patterns: Seq<(Seq<Seq<char>>, Seq<char>)>,
    source: Seq<char>,
) -> spec_fn(HelmRule) -> Result<(Seq<char>, HelmActionView), HelmRulesErrorView> {
    |r: HelmRule|
        if lookup(patterns, key1(r.class@)) is None {
            Err(HelmRulesErrorView::UnknownPattern(source, r.class@))
        } else {
            match rule_action(source, r) {
                Ok(a) => Ok((r.class@, a)),
                Err(e) => Err(e),
            }
        }
}

/// What compiling a group gives.
pub open spec fn group_result(patterns: Seq<(Seq<Seq<char>>, Seq<char>)>) -> spec_fn(
    HelmGroup,
) -> Result<CompiledGroupView, HelmRulesErrorView> {
    |g: HelmGroup|
        match collect_ok(g.rules@.map_values(rule_result(patterns, g.source@))) {
            Ok(rules) => Ok(CompiledGroupView { source: g.source@, rules, retire: g.retire }),
            Err(e) => Err(e),
        }
}

/// What compiling a rules file gives: its groups, or the first error, patterns
/// before groups.
pub open spec fn compile_result(file: HelmRulesFile) -> Result<
    Seq<CompiledGroupView>,
    HelmRulesErrorView,
> {
    match collect_ok(file.patterns@.map_values(pattern_result())) {
        Err(e) => Err(e),
        Ok(_) => collect_ok(file.groups@.map_values(group_result(file.patterns@))),
    }
}

/// Every entry is handed on unchanged where all patterns compile.
proof fn lemma_patterns_ok(ps: Seq<(Seq<Seq<char>>, Seq<char>)>, n: int)
    requires
        0 <= n <= ps.len(),
        collect_ok(ps.map_values(pattern_result()).take(n)) is Ok,
    ensures
        collect_ok(ps.map_values(pattern_result()).take(n)) == Ok::<
            Seq<(Seq<Seq<char>>, Seq<char>)>,
            HelmRulesErrorView,
        >(ps.take(n)),
    decreases n,
{
    let rs = ps.map_values(pattern_result());
    if n == 0 {
        assert(ps.take(0) =~= Seq::<(Seq<Seq<char>>, Seq<char>)>::empty());
    } else {
        lemma_collect_step(rs, n - 1);
        lemma_patterns_ok(ps, n - 1);
        lemma_take_push(ps, n - 1);
    }
}

/// Storing a key behind all others appends it.
proof fn lemma_put_last<W>(entries: Seq<(Seq<Seq<char>>, W)>, k: Seq<Seq<char>>, w: W)
    requires
        ascending(keys_of(entries)),
        forall|i: int|
            0 <= i < entries.len() ==> key_lt((#[trigger] entries[i]).0, k),
    ensures
        put(entries, k, w) == entries.push((k, w)),
{
    let keys = keys_of(entries);
    assert forall|i: int| 0 <= i < keys.len() implies key_lt(
        #[trigger] keys[i],
        k,
    ) by {
        assert(keys[i] == entries[i].0);
    }
    lemma_rank_unique(keys, k, keys.len() as int);
    lemma_rank(keys, k);
    assert(put(entries, k, w) =~= entries.push((k, w)));
}

/// Compile every pattern, in ascending order of their names.
fn compile_patterns(patterns: &OrderedMap<String, String>) -> (r: Result<
    OrderedMap<String, TagPattern>,
    HelmRulesError,
>)
    ensures
        result_view(r) == collect_ok(patterns@.map_values(pattern_result())),
        r matches Ok(m) ==> m@ == patterns@,
{
    let ghost ps = patterns@;
    let ghost rs = ps.map_values(pattern_result());
    let mut out: OrderedMap<String, TagPattern> = OrderedMap::new();
    let n: usize = patterns.len();
    let mut i: usize = 0;
    assert(out@ =~= ps.take(0));
    while i < n
        invariant
            ps == patterns@,
            n == ps.len(),
            ascending(keys_of(ps)),
            rs == ps.map_values(pattern_result()),
            i <= n,
            out@ == ps.take(i as int),
            collect_ok(rs.take(i as int)) == Ok::<
                Seq<(Seq<Seq<char>>, Seq<char>)>,
                HelmRulesErrorView,
            >(ps.take(i as int)),
        decreases n - i,
    {
        let name = patterns.key_at(i);
        let source = patterns.value_at(i);
        proof {
            lemma_collect_step(rs, i as int);
            lemma_take_push(ps, i as int);
            assert(ps[i as int] == (key1(name@), source@));
            assert(key1(name@)[0] == name@);
        }
        match compile_regex(source.as_str()) {
            Ok(re) => {
                proof {
                    let before = ps.take(i as int);
                    assert forall|j: int| 0 <= j < before.len() implies key_lt(
                        (#[trigger] before[j]).0,
                        key1(name@),
                    ) by {
                        assert(key_lt(keys_of(ps)[j], keys_of(ps)[i as int]));
                    }
                    assert forall|a: int, b: int|
                        0 <= a < b < keys_of(before).len() implies key_lt(
                        #[trigger] keys_of(before)[a],
                        #[trigger] keys_of(before)[b],
                    ) by {
                        assert(key_lt(keys_of(ps)[a], keys_of(ps)[b]));
                    }
                    lemma_put_last(before, key1(name@), re@);
                }
                out.insert(name.clone(), re);
            },
            Err(_) => {
                proof {
                    lemma_collect_err(rs, i + 1);
                }
                return Err(HelmRulesError::BadPattern(name.clone()));
            },
        }
        i = i + 1;
    }
    proof {
        lemma_take_all(ps);
        lemma_take_all(rs);
    }
    Ok(out)
}

/// The action of a rule.
fn action_of(source: &str, r: &HelmRule) -> (res: Result<HelmAction, HelmRulesError>)
    ensures
        result_view(res) == rule_action(source@, *r),
{
    if let Some(a) = &r.action {
        if same_text(a.as_str(), "delete") {
            return Ok(HelmAction::Delete);
        }
        if same_text(a.as_str(), "delete-if-on-authority") {
            return Ok(HelmAction::DeleteIfOnAuthority);
        }
        if !same_text(a.as_str(), "move") {
            return Err(HelmRulesError::UnknownAction(a.clone()));
        }
    }
    match &r.dest {
        Some(d) => Ok(HelmAction::Move { dest: d.clone() }),
        None => Err(HelmRulesError::MoveNeedsDest(source.to_string(), r.class.clone())),
    }
}

/// Compile the rules of one source repository.
fn compile_group(patterns: &OrderedMap<String, TagPattern>, g: &HelmGroup) -> (res: Result<
    CompiledGroup,
    HelmRulesError,
>)
    ensures
        result_view(res) == group_result(patterns@)(*g),
{
    let ghost f = rule_result(patterns@, g.source@);
    let ghost rs = g.rules@.map_values(f);
    let mut rules: Vec<(String, HelmAction)> = Vec::new();
    let mut i: usize = 0;
    assert(rules.deep_view() =~= Seq::<(Seq<char>, HelmActionView)>::empty());
    while i < g.rules.len()
        invariant
            f == rule_result(patterns@, g.source@),
            rs == g.rules@.map_values(f),
            i <= g.rules@.len(),
            collect_ok(rs.take(i as int)) == Ok::<
                Seq<(Seq<char>, HelmActionView)>,
                HelmRulesErrorView,
            >(rules.deep_view()),
        decreases g.rules@.len() - i,
    {
        let r = &g.rules[i];
        proof {
            lemma_collect_step(rs, i as int);
        }
        if !patterns.contains_key(&r.class) {
            proof {
                lemma_collect_err(rs, i + 1);
            }
            return Err(HelmRulesError::UnknownPattern(g.source.clone(), r.class.clone()));
        }
        match action_of(g.source.as_str(), r) {
            Ok(a) => push_item(&mut rules, (r.class.clone(), a)),
            Err(e) => {
                proof {
                    lemma_collect_err(rs, i + 1);
                }
                return Err(e);
            },
        }
        i = i + 1;
    }
    proof {
        lemma_take_all(rs);
    }
    Ok(CompiledGroup { source: g.source.clone(), rules, retire: g.retire })
}

impl Compiled {
    /// Compile and validate a rules file. The first problem is the error.
    pub fn compile(file: HelmRulesFile) -> (res: Result<Self, HelmRulesError>)
        ensures
            res is Ok == compile_result(file) is Ok,
            res matches Err(e) ==> compile_result(file) == Err::<
                Seq<CompiledGroupView>,
                HelmRulesErrorView,
            >(e.deep_view()),
            res matches Ok(c) ==> {
                &&& compile_result(file) == Ok::<Seq<CompiledGroupView>, HelmRulesErrorView>(
                    c.groups.deep_view(),
                )
                &&& c.patterns@ == file.patterns@
                &&& c.first_party == file.first_party
                &&& c.authority == file.authority
            },
    {
        let patterns = match compile_patterns(&file.patterns) {
            Ok(p) => p,
            Err(e) => {
                return Err(e);
            },
        };
        let ghost f = group_result(file.patterns@);
        let ghost rs = file.groups@.map_values(f);
        let mut groups: Vec<CompiledGroup> = Vec::new();
        let mut i: usize = 0;
        assert(groups.deep_view() =~= Seq::<CompiledGroupView>::empty());
        while i < file.groups.len()
            invariant
                f == group_result(file.patterns@),
                patterns@ == file.patterns@,
                rs == file.groups@.map_values(f),
                collect_ok(file.patterns@.map_values(pattern_result())) is Ok,
                i <= file.groups@.len(),
                collect_ok(rs.take(i as int)) == Ok::<Seq<CompiledGroupView>, HelmRulesErrorView>(
                    groups.deep_view(),
                ),
            decreases file.groups@.len() - i,
        {
            proof {
                lemma_collect_step(rs, i as int);
            }
            match compile_group(&patterns, &file.groups[i]) {
                Ok(g) => push_item(&mut groups, g),
                Err(e) => {
                    proof {
                        lemma_collect_err(rs, i + 1);
                    }
                    return Err(e);
                },
            }
            i = i + 1;
        }
        proof {
            lemma_take_all(rs);
        }
        Ok(
            Compiled {
                patterns,
                first_party: file.first_party,
                authority: file.authority,
                groups,
            },
        )
    }

    /// Whether a chart is first-party.
    pub fn is_first_party(&self, name: &str) -> (r: bool)
        ensures
            r == under_prefix(self.first_party.deep_view(), name@),
    {
        has_any_prefix(self.first_party.as_slice(), name)
    }

    /// The first rule whose class pattern matches the version.
    pub fn classify(&self, group: &CompiledGroup, version: &str) -> (r: Option<
        (String, HelmAction),
    >)
        ensures
            r.deep_view() == classified(self.patterns@, group.deep_view(), version@),
    {
        let ghost rules = group.rules.deep_view();
        let ghost p = class_matches(self.patterns@, version@);
        let mut i: usize = 0;
        while i < group.rules.len()
            invariant
                rules == group.rules.deep_view(),
                p == class_matches(self.patterns@, version@),
                i <= group.rules@.len(),
                forall|j: int| 0 <= j < i ==> !p(#[trigger] rules[j]),
            decreases group.rules@.len() - i,
        {
            let (class, action) = &group.rules[i];
            assert(rules[i as int] == (class@, action.deep_view()));
            if let Some(re) = self.patterns.get(class) {
                if re.is_match(version) {
                    proof {
                        lemma_first_found(rules, p, i as int);
                    }
                    return Some((class.clone(), action.clone()));
                }
            }
            i = i + 1;
        }
        proof {
            lemma_first_none(rules, p);
        }
        None
    }
}

/// Tells a rule whose class pattern matches a version.
pub open spec fn class_matches(
    patterns: Seq<(Seq<Seq<char>>, Seq<char>)>,
    version: Seq<char>,
) -> spec_fn((Seq<char>, HelmActionView)) -> bool {
    |r: (Seq<char>, HelmActionView)|
        lookup(patterns, key1(r.0)) matches Some(source) && regex_matches(source, version)
}

/// The class and action of a version: those of the first matching rule.
pub open spec fn classified(
    patterns: Seq<(Seq<Seq<char>>, Seq<char>)>,
    group: CompiledGroupView,
    version: Seq<char>,
) -> Option<(Seq<char>, HelmActionView)> {
    first_where(group.rules, class_matches(patterns, version))
}

/// One planned operation on a chart version.
#[derive(Debug)]
pub struct PlannedOp {
    pub source: String,
    pub name: String,
    pub version: String,
    pub digest: String,
    pub class: String,
    pub action: HelmAction,
}

/// The contents of a [`PlannedOp`].
#[verifier::ext_equal]
pub struct PlannedOpView {
    pub source: Seq<char>,
    pub name: Seq<char>,
    pub version: Seq<char>,
    pub digest: Seq<char>,
    pub class: Seq<char>,
    pub action: HelmActionView,
}

impl DeepView for PlannedOp {
    type V = PlannedOpView;

    open spec fn deep_view(&self) -> PlannedOpView {
        PlannedOpView {
            source: self.source@,
            name: self.name@,
            version: self.version@,
            digest: self.digest@,
            class: self.class@,
            action: self.action.deep_view(),
        }
    }
}

/// The reorganization plan with the buckets needed to report it honestly.
#[derive(Debug)]
pub struct Plan {
    pub ops: Vec<PlannedOp>,
    /// First-party versions that no rule matched; nothing is done to these.
    pub unclassified: Vec<(String, ChartVersion)>,
    /// Count of third-party versions skipped by name.
    pub third_party_skipped: usize,
}

/// The contents of a [`Plan`].
#[verifier::ext_equal]
pub struct PlanView {
    pub ops: Seq<PlannedOpView>,
    pub unclassified: Seq<(Seq<char>, ChartVersionView)>,
    pub third_party_skipped: nat,
}

impl DeepView for Plan {
    type V = PlanView;

    open spec fn deep_view(&self) -> PlanView {
        PlanView {
            ops: self.ops.deep_view(),
            unclassified: self.unclassified.deep_view(),
            third_party_skipped: self.third_party_skipped as nat,
        }
    }
}

impl Default for Plan {
    fn default() -> (r: Self)
        ensures
            r.deep_view() == (PlanView {
                ops: Seq::empty(),
                unclassified: Seq::empty(),
                third_party_skipped: 0,
            }),
    {
        let r = Plan { ops: Vec::new(), unclassified: Vec::new(), third_party_skipped: 0 };
        assert(r.deep_view() =~= (PlanView {
            ops: Seq::empty(),
            unclassified: Seq::empty(),
            third_party_skipped: 0,
        }));
        r
    }
}

/// Tells third-party versions.
pub open spec fn third_party(first_party: Seq<Seq<char>>) -> spec_fn(ChartVersionView) -> bool {
    |v: ChartVersionView| !under_prefix(first_party, v.name)
}

/// Takes the operation on a first-party version that a rule matches.
pub open spec fn planned(
    patterns: Seq<(Seq<Seq<char>>, Seq<char>)>,
    first_party: Seq<Seq<char>>,
    group: CompiledGroupView,
) -> spec_fn(ChartVersionView) -> Option<PlannedOpView> {
    |v: ChartVersionView|
        if under_prefix(first_party, v.name) {
            match classified(patterns, group, v.version) {
                Some((class, action)) => Some(
                    PlannedOpView {
                        source: group.source,
                        name: v.name,
                        version: v.version,
                        digest: v.digest,
                        class,
                        action,
                    },
                ),
                None => None,
            }
        } else {
            None
        }
}

/// Takes a first-party version that no rule matches.
pub open spec fn unmatched(
    patterns: Seq<(Seq<Seq<char>>, Seq<char>)>,
    first_party: Seq<Seq<char>>,
    group: CompiledGroupView,
) -> spec_fn(ChartVersionView) -> Option<(Seq<char>, ChartVersionView)> {
    |v: ChartVersionView|
        if under_prefix(first_party, v.name) && classified(patterns, group, v.version) is None {
            Some((group.source, v))
        } else {
            None
        }
}

/// The plan after the versions of one source repository were added.
pub open spec fn with_group(
    p: PlanView,
    patterns: Seq<(Seq<Seq<char>>, Seq<char>)>,
    first_party: Seq<Seq<char>>,
    group: CompiledGroupView,
    versions: Seq<ChartVersionView>,
) -> PlanView {
    PlanView {
        ops: p.ops + versions.filter_map(planned(patterns, first_party, group)),
        unclassified: p.unclassified + versions.filter_map(
            unmatched(patterns, first_party, group),
        ),
        third_party_skipped: p.third_party_skipped + versions.filter(third_party(first_party)).len(),
    }
}

/// Add the versions of one source repository to the plan.
pub fn plan(plan: &mut Plan, compiled: &Compiled, group: &CompiledGroup, versions: &[ChartVersion])
    requires
        old(plan).third_party_skipped + versions@.len() <= usize::MAX,
    ensures
        final(plan).deep_view() == with_group(
            old(plan).deep_view(),
            compiled.patterns@,
            compiled.first_party.deep_view(),
            group.deep_view(),
            versions.deep_view(),
        ),
{
    let ghost vs = versions.deep_view();
    let ghost start = plan.deep_view();
    let ghost f = planned(compiled.patterns@, compiled.first_party.deep_view(), group.deep_view());
    let ghost h = unmatched(
        compiled.patterns@,
        compiled.first_party.deep_view(),
        group.deep_view(),
    );
    let ghost t = third_party(compiled.first_party.deep_view());
    let mut i: usize = 0;
    proof {
        reveal(Seq::filter);
        assert(start.ops + vs.take(0).filter_map(f) =~= start.ops);
        assert(start.unclassified + vs.take(0).filter_map(h) =~= start.unclassified);
        assert(vs.take(0).filter(t).len() == 0);
    }
    while i < versions.len()
        invariant
            vs == versions.deep_view(),
            f == planned(
                compiled.patterns@,
                compiled.first_party.deep_view(),
                group.deep_view(),
            ),
            h == unmatched(
                compiled.patterns@,
                compiled.first_party.deep_view(),
                group.deep_view(),
            ),
            t == third_party(compiled.first_party.deep_view()),
            i <= versions@.len(),
            start.third_party_skipped + versions@.len() <= usize::MAX,
            vs.take(i as int).filter(t).len() <= i,
            plan.ops.deep_view() == start.ops + vs.take(i as int).filter_map(f),
            plan.unclassified.deep_view() == start.unclassified + vs.take(i as int).filter_map(h),
            plan.third_party_skipped == start.third_party_skipped + vs.take(i as int).filter(
                t,
            ).len(),
        decreases versions@.len() - i,
    {
        let cv = &versions[i];
        proof {
            lemma_filter_map_step(vs, f, i as int);
            lemma_filter_map_step(vs, h, i as int);
            lemma_filter_step(vs, t, i as int);
            assert(vs[i as int] == cv.deep_view());
        }
        if !compiled.is_first_party(cv.name.as_str()) {
            plan.third_party_skipped = plan.third_party_skipped + 1;
        } else {
            match compiled.classify(group, cv.version.as_str()) {
                Some((class, action)) => push_item(
                    &mut plan.ops,
                    PlannedOp {
                        source: group.source.clone(),
                        name: cv.name.clone(),
                        version: cv.version.clone(),
                        digest: cv.digest.clone(),
                        class,
                        action,
                    },
                ),
                None => push_item(&mut plan.unclassified, (group.source.clone(), cv.clone())),
            }
        }
        proof {
            assert(plan.ops.deep_view() =~= start.ops + vs.take(i + 1).filter_map(f));
            assert(plan.unclassified.deep_view() =~= start.unclassified + vs.take(
                i + 1,
            ).filter_map(h));
        }
        i = i + 1;
    }
    proof {
        lemma_take_all(vs);
    }
}

/// Third-party charts are never part of a planned operation.
pub proof fn law_third_party_charts_are_untouched(
    patterns: Seq<(Seq<Seq<char>>, Seq<char>)>,
    first_party: Seq<Seq<char>>,
    group: CompiledGroupView,
    versions: Seq<ChartVersionView>,
    op: PlannedOpView,
)
    requires
        versions.filter_map(planned(patterns, first_party, group)).contains(op),
    ensures
        under_prefix(first_party, op.name),
        op.source == group.source,
{
    lemma_filter_map_contains(versions, planned(patterns, first_party, group), op);
}

/// Every version of an index is planned, unclassified or skipped, exactly once.
pub proof fn law_every_version_is_accounted_for(
    p: PlanView,
    patterns: Seq<(Seq<Seq<char>>, Seq<char>)>,
    first_party: Seq<Seq<char>>,
    group: CompiledGroupView,
    versions: Seq<ChartVersionView>,
)
    ensures
        ({
            let after = with_group(p, patterns, first_party, group, versions);
            after.ops.len() + after.unclassified.len() + after.third_party_skipped == p.ops.len()
                + p.unclassified.len() + p.third_party_skipped + versions.len()
        }),
    decreases versions.len(),
{
    let f = planned(patterns, first_party, group);
    let h = unmatched(patterns, first_party, group);
    let t = third_party(first_party);
    reveal(Seq::filter);
    if versions.len() > 0 {
        let rest = versions.drop_last();
        let v = versions.last();
        law_every_version_is_accounted_for(p, patterns, first_party, group, rest);
        assert(versions =~= rest.push(v));
        lemma_filter_map_push(rest, f, v);
        lemma_filter_map_push(rest, h, v);
        rest.lemma_filter_push(v, t);
    }
}

/// Takes the destination of a move.
pub open spec fn move_dest() -> spec_fn(PlannedOpView) -> Option<Seq<Seq<char>>> {
    |o: PlannedOpView|
        match o.action {
            HelmActionView::Move { dest } => Some(key1(dest)),
            _ => None,
        }
}

/// Tells plain deletions.
pub open spec fn is_delete() -> spec_fn(PlannedOpView) -> bool {
    |o: PlannedOpView| o.action is Delete
}

/// Tells deletions that the authority has to confirm.
pub open spec fn is_verify() -> spec_fn(PlannedOpView) -> bool {
    |o: PlannedOpView| o.action is DeleteIfOnAuthority
}

/// The line of one destination.
pub open spec fn dest_line() -> spec_fn((Seq<Seq<char>>, usize)) -> Seq<char> {
    |e: (Seq<Seq<char>>, usize)|
        "  MOVE  "@ + padded_left(decimal(e.1 as nat), 5) + " chart-versions -> "@ + e.0[0]
}

/// The address of the authority.
pub open spec fn authority_name(a: Option<AuthorityConfig>) -> Seq<char> {
    match a {
        Some(c) => c.url@ + "/repository/"@ + c.repo@,
        None => "<none configured>"@,
    }
}

/// The lines of the operations.
pub open spec fn op_lines(p: PlanView, authority: Option<AuthorityConfig>) -> Seq<Seq<char>> {
    let deletes = p.ops.filter(is_delete()).len();
    let verify = p.ops.filter(is_verify()).len();
    tally_of(p.ops.filter_map(move_dest())).map_values(dest_line()) + (if deletes > 0 {
        seq!["  DELETE "@ + padded_left(decimal(deletes), 4)
            + " chart-versions (junk/superseded)"@]
    } else {
        Seq::empty()
    }) + (if verify > 0 {
        seq![
            "  VERIFY+DELETE "@ + padded_left(decimal(verify), 4)
                + " released versions (drop locally iff upstream authority "@ + authority_name(
                authority,
            ) + " serves the same digest)"@,
        ]
    } else {
        Seq::empty()
    }) + seq![
        "  SKIP  "@ + padded_left(decimal(p.third_party_skipped), 5)
            + " third-party chart-versions (untouched)"@,
    ]
}

/// The line of one unclassified version.
pub open spec fn unclassified_line() -> spec_fn((Seq<char>, ChartVersionView)) -> Seq<char> {
    |u: (Seq<char>, ChartVersionView)| "    "@ + u.0 + ": "@ + u.1.name + ":"@ + u.1.version
}

/// The unclassified versions, the first forty by name.
pub open spec fn unclassified_lines(us: Seq<(Seq<char>, ChartVersionView)>) -> Seq<Seq<char>> {
    if us.len() == 0 {
        Seq::empty()
    } else {
        seq![
            "\n  UNCLASSIFIED ("@ + decimal(us.len())
                + ") — first-party but no rule matched; NOTHING will be done:"@,
        ] + (if us.len() > 40 {
            us.take(40)
        } else {
            us
        }).map_values(unclassified_line()) + (if us.len() > 40 {
            seq!["    … and "@ + decimal((us.len() - 40) as nat) + " more"@]
        } else {
            Seq::empty()
        })
    }
}

/// Tells operations on a source.
pub open spec fn op_from(source: Seq<char>) -> spec_fn(PlannedOpView) -> bool {
    |o: PlannedOpView| o.source == source
}

/// Tells unclassified versions of a source.
pub open spec fn left_in(source: Seq<char>) -> spec_fn((Seq<char>, ChartVersionView)) -> bool {
    |u: (Seq<char>, ChartVersionView)| u.0 == source
}

/// The line of a repository to be retired.
pub open spec fn retire_line(p: PlanView) -> spec_fn(CompiledGroupView) -> Option<Seq<char>> {
    |g: CompiledGroupView|
        if g.retire {
            let remaining = p.unclassified.filter(left_in(g.source)).len();
            Some(
                "\n  RETIRE '"@ + g.source + "' — "@ + decimal(
                    p.ops.filter(op_from(g.source)).len(),
                ) + " version(s) leave via move/delete; "@ + decimal(remaining)
                    + " unclassified would remain"@ + (if remaining == 0 {
                    " (repo will be empty of first-party charts)"@
                } else {
                    " (handle these before deleting the repo)"@
                }),
            )
        } else {
            None
        }
}

/// The whole printed plan.
pub open spec fn plan_lines(
    p: PlanView,
    authority: Option<AuthorityConfig>,
    groups: Seq<CompiledGroupView>,
) -> Seq<Seq<char>> {
    seq!["\n=== Helm reorg plan ==="@] + op_lines(p, authority) + unclassified_lines(p.unclassified)
        + groups.filter_map(retire_line(p))
}

/// How many operations of each kind there are: destinations of moves, plain
/// deletions, deletions to confirm.
fn count_ops(ops: &[PlannedOp]) -> (r: (Vec<String>, usize, usize))
    ensures
        list_keys(r.0@) == ops.deep_view().filter_map(move_dest()),
        r.1 == ops.deep_view().filter(is_delete()).len(),
        r.2 == ops.deep_view().filter(is_verify()).len(),
{
    let ghost all = ops.deep_view();
    let mut dests: Vec<String> = Vec::new();
    let mut deletes: usize = 0;
    let mut verify: usize = 0;
    let mut i: usize = 0;
    proof {
        reveal(Seq::filter);
        assert(list_keys(dests@) =~= all.take(0).filter_map(move_dest()));
        assert(all.take(0).filter(is_delete()).len() == 0);
        assert(all.take(0).filter(is_verify()).len() == 0);
    }
    while i < ops.len()
        invariant
            all == ops.deep_view(),
            i <= ops@.len(),
            deletes <= i,
            verify <= i,
            list_keys(dests@) == all.take(i as int).filter_map(move_dest()),
            deletes == all.take(i as int).filter(is_delete()).len(),
            verify == all.take(i as int).filter(is_verify()).len(),
        decreases ops@.len() - i,
    {
        proof {
            lemma_filter_map_step(all, move_dest(), i as int);
            lemma_filter_step(all, is_delete(), i as int);
            lemma_filter_step(all, is_verify(), i as int);
            assert(all[i as int] == ops@[i as int].deep_view());
        }
        match &ops[i].action {
            HelmAction::Move { dest } => {
                let ghost before = dests@;
                dests.push(dest.clone());
                assert(list_keys(dests@) =~= list_keys(before).push(key1(dest@)));
            },
            HelmAction::Delete => {
                deletes = deletes + 1;
            },
            HelmAction::DeleteIfOnAuthority => {
                verify = verify + 1;
            },
        }
        i = i + 1;
    }
    proof {
        lemma_take_all(all);
    }
    (dests, deletes, verify)
}

/// The lines of the operations.
fn say_ops(p: &Plan, authority: &Option<AuthorityConfig>) -> (out: Vec<String>)
    ensures
        out.deep_view() == op_lines(p.deep_view(), *authority),
{
    let (dests, deletes, verify) = count_ops(p.ops.as_slice());
    let counts = tally(dests);
    let ghost cs = counts@;
    let mut out: Vec<String> = Vec::new();
    let mut i: usize = 0;
    assert(out.deep_view() =~= cs.take(0).map_values(dest_line()));
    while i < counts.len()
        invariant
            cs == counts@,
            i <= cs.len(),
            out.deep_view() == cs.take(i as int).map_values(dest_line()),
        decreases cs.len() - i,
    {
        let dest = counts.key_at(i);
        let n: usize = *counts.value_at(i);
        proof {
            lemma_map_step(cs, dest_line(), i as int);
            assert(cs[i as int].0 == key1(dest@));
            assert(cs[i as int].0[0] == dest@);
        }
        let count = count_text(n);
        let number = pad_left(count.as_str(), 5);
        let mut line = "  MOVE  ".to_string();
        line.append(number.as_str());
        line.append(" chart-versions -> ");
        line.append(dest.as_str());
        push_item(&mut out, line);
        i = i + 1;
    }
    proof {
        lemma_take_all(cs);
    }
    if deletes > 0 {
        let count = count_text(deletes);
        let number = pad_left(count.as_str(), 4);
        let mut line = "  DELETE ".to_string();
        line.append(number.as_str());
        line.append(" chart-versions (junk/superseded)");
        push_item(&mut out, line);
    }
    if verify > 0 {
        let count = count_text(verify);
        let number = pad_left(count.as_str(), 4);
        let mut line = "  VERIFY+DELETE ".to_string();
        line.append(number.as_str());
        line.append(" released versions (drop locally iff upstream authority ");
        let name = match authority {
            Some(a) => {
                let mut s = a.url.clone();
                s.append("/repository/");
                s.append(a.repo.as_str());
                s
            },
            None => "<none configured>".to_string(),
        };
        line.append(name.as_str());
        line.append(" serves the same digest)");
        push_item(&mut out, line);
    }
    let count = count_text(p.third_party_skipped);
    let number = pad_left(count.as_str(), 5);
    let mut line = "  SKIP  ".to_string();
    line.append(number.as_str());
    line.append(" third-party chart-versions (untouched)");
    push_item(&mut out, line);
    assert(out.deep_view() =~= op_lines(p.deep_view(), *authority));
    out
}

/// The unclassified versions.
fn say_unclassified(us: &[(String, ChartVersion)]) -> (out: Vec<String>)
    ensures
        out.deep_view() == unclassified_lines(us.deep_view()),
{
    let ghost all = us.deep_view();
    let mut out: Vec<String> = Vec::new();
    if us.len() > 0 {
        let mut head = "\n  UNCLASSIFIED (".to_string();
        append_count(&mut head, us.len());
        head.append(") — first-party but no rule matched; NOTHING will be done:");
        push_item(&mut out, head);
        let ghost base = out.deep_view();
        let n: usize = if us.len() > 40 {
            40
        } else {
            us.len()
        };
        let mut i: usize = 0;
        assert(out.deep_view() =~= base + all.take(0).map_values(unclassified_line()));
        while i < n
            invariant
                all == us.deep_view(),
                i <= n <= us@.len(),
                out.deep_view() == base + all.take(i as int).map_values(unclassified_line()),
            decreases n - i,
        {
            let (src, cv) = &us[i];
            proof {
                lemma_map_step(all, unclassified_line(), i as int);
                assert(all[i as int] == (src@, cv.deep_view()));
            }
            let mut line = "    ".to_string();
            line.append(src.as_str());
            line.append(": ");
            line.append(cv.name.as_str());
            line.append(":");
            line.append(cv.version.as_str());
            push_item(&mut out, line);
            assert(out.deep_view() =~= base + all.take(i + 1).map_values(unclassified_line()));
            i = i + 1;
        }
        proof {
            lemma_take_all(all);
        }
        if us.len() > 40 {
            let mut line = "    … and ".to_string();
            append_count(&mut line, us.len() - 40);
            line.append(" more");
            push_item(&mut out, line);
        }
    }
    assert(out.deep_view() =~= unclassified_lines(all));
    out
}

/// The number of operations on a source.
fn count_from(ops: &[PlannedOp], source: &str) -> (n: usize)
    ensures
        n == ops.deep_view().filter(op_from(source@)).len(),
{
    let ghost all = ops.deep_view();
    let ghost p = op_from(source@);
    let mut n: usize = 0;
    let mut i: usize = 0;
    proof {
        reveal(Seq::filter);
        assert(all.take(0).filter(p).len() == 0);
    }
    while i < ops.len()
        invariant
            all == ops.deep_view(),
            p == op_from(source@),
            i <= ops@.len(),
            n <= i,
            n == all.take(i as int).filter(p).len(),
        decreases ops@.len() - i,
    {
        proof {
            lemma_filter_step(all, p, i as int);
            assert(all[i as int] == ops@[i as int].deep_view());
        }
        if same_text(ops[i].source.as_str(), source) {
            n = n + 1;
        }
        i = i + 1;
    }
    proof {
        lemma_take_all(all);
    }
    n
}

/// The number of unclassified versions of a source.
fn count_left(us: &[(String, ChartVersion)], source: &str) -> (n: usize)
    ensures
        n == us.deep_view().filter(left_in(source@)).len(),
{
    let ghost all = us.deep_view();
    let ghost p = left_in(source@);
    let mut n: usize = 0;
    let mut i: usize = 0;
    proof {
        reveal(Seq::filter);
        assert(all.take(0).filter(p).len() == 0);
    }
    while i < us.len()
        invariant
            all == us.deep_view(),
            p == left_in(source@),
            i <= us@.len(),
            n <= i,
            n == all.take(i as int).filter(p).len(),
        decreases us@.len() - i,
    {
        proof {
            lemma_filter_step(all, p, i as int);
            assert(all[i as int] == us@[i as int].deep_view());
        }
        if same_text(us[i].0.as_str(), source) {
            n = n + 1;
        }
        i = i + 1;
    }
    proof {
        lemma_take_all(all);
    }
    n
}

/// The printed plan: operations by action, the unclassified bucket and the
/// repositories to be retired.
pub fn print_plan(plan: &Plan, compiled: &Compiled) -> (out: Vec<String>)
    ensures
        out.deep_view() == plan_lines(
            plan.deep_view(),
            compiled.authority,
            compiled.groups.deep_view(),
        ),
{
    let ghost pv = plan.deep_view();
    let mut out: Vec<String> = Vec::new();
    say(&mut out, "\n=== Helm reorg plan ===");
    push_all(&mut out, say_ops(plan, &compiled.authority));
    push_all(&mut out, say_unclassified(plan.unclassified.as_slice()));
    let ghost base = out.deep_view();
    let ghost gs = compiled.groups.deep_view();
    let ghost f = retire_line(pv);
    let mut i: usize = 0;
    assert(out.deep_view() =~= base + gs.take(0).filter_map(f));
    while i < compiled.groups.len()
        invariant
            pv == plan.deep_view(),
            gs == compiled.groups.deep_view(),
            f == retire_line(pv),
            i <= compiled.groups@.len(),
            out.deep_view() == base + gs.take(i as int).filter_map(f),
        decreases compiled.groups@.len() - i,
    {
        let g = &compiled.groups[i];
        proof {
            lemma_filter_map_step(gs, f, i as int);
            assert(gs[i as int] == g.deep_view());
        }
        if g.retire {
            let leaving: usize = count_from(plan.ops.as_slice(), g.source.as_str());
            let remaining: usize = count_left(plan.unclassified.as_slice(), g.source.as_str());
            let mut line = "\n  RETIRE '".to_string();
            line.append(g.source.as_str());
            line.append("' — ");
            append_count(&mut line, leaving);
            line.append(" version(s) leave via move/delete; ");
            append_count(&mut line, remaining);
            line.append(" unclassified would remain");
            if remaining == 0 {
                line.append(" (repo will be empty of first-party charts)");
            } else {
                line.append(" (handle these before deleting the repo)");
            }
            push_item(&mut out, line);
        }
        assert(out.deep_view() =~= base + gs.take(i + 1).filter_map(f));
        i = i + 1;
    }
    proof {
        lemma_take_all(gs);
    }
    assert(out.deep_view() =~= plan_lines(pv, compiled.authority, gs));
    out
}

/// Which action groups to apply.
#[derive(Debug, Clone, Copy, PartialEq, Eq)]
pub struct ApplySelection {
    pub moves: bool,
    pub deletes: bool,
    pub verify_deletes: bool,
}

/// The names in a selection: comma-separated, white space around them ignored.
pub open spec fn selected_names(spec: Seq<char>) -> Seq<Seq<char>> {
    pieces(spec, ',').map_values(|s: Seq<char>| trimmed(s))
}

impl ApplySelection {
    /// Parse a comma-separated selection; `all` selects every group.
    pub fn parse(spec: &str) -> (r: Self)
        ensures
            ({
                let names = selected_names(spec@);
                let all = names.contains("all"@);
                &&& r.moves == (all || names.contains("move"@))
                &&& r.deletes == (all || names.contains("delete"@))
                &&& r.verify_deletes == (all || names.contains("verify-delete"@))
            }),
    {
        let parts = split_all(spec, ',');
        let ghost ps = parts.deep_view();
        let ghost f = |s: Seq<char>| trimmed(s);
        let mut names: Vec<String> = Vec::new();
        let mut i: usize = 0;
        assert(names.deep_view() =~= ps.take(0).map_values(f));
        while i < parts.len()
            invariant
                ps == parts.deep_view(),
                f == (|s: Seq<char>| trimmed(s)),
                i <= parts@.len(),
                names.deep_view() == ps.take(i as int).map_values(f),
            decreases parts@.len() - i,
        {
            proof {
                lemma_map_step(ps, f, i as int);
            }
            push_item(&mut names, trim(parts[i].as_str()));
            i = i + 1;
        }
        proof {
            lemma_take_all(ps);
        }
        let all = list_has(names.as_slice(), "all");
        ApplySelection {
            moves: all || list_has(names.as_slice(), "move"),
            deletes: all || list_has(names.as_slice(), "delete"),
            verify_deletes: all || list_has(names.as_slice(), "verify-delete"),
        }
    }
}

/// What a version is known by at the authority: its name, version and digest, each
/// by itself.
pub open spec fn version_key() -> spec_fn(ChartVersionView) -> Seq<Seq<char>> {
    |v: ChartVersionView| key3(v.name, v.version, v.digest)
}

/// The set of versions that the authority serves.
pub fn authority_keys(versions: &[ChartVersion]) -> (r: KeySet<(String, String, String)>)
    ensures
        r@ == sorted_keys(versions.deep_view().map_values(version_key())),
{
    let ghost keys = versions.deep_view().map_values(version_key());
    let mut r: KeySet<(String, String, String)> = KeySet::new();
    let mut i: usize = 0;
    proof {
        assert(keys.take(0) =~= Seq::<Seq<Seq<char>>>::empty());
    }
    while i < versions.len()
        invariant
            keys == versions.deep_view().map_values(version_key()),
            i <= versions@.len(),
            r@ == sorted_keys(keys.take(i as int)),
        decreases versions@.len() - i,
    {
        let v = &versions[i];
        proof {
            lemma_take_push(keys, i as int);
            assert(keys.take(i + 1).drop_last() =~= keys.take(i as int));
            assert(versions.deep_view()[i as int] == v.deep_view());
        }
        r.insert((v.name.clone(), v.version.clone(), v.digest.clone()));
        i = i + 1;
    }
    proof {
        lemma_take_all(keys);
    }
    r
}

/// Whether applying a selection needs the authority; an error where it does and
/// none is configured.
pub fn authority_needed(plan: &Plan, sel: &ApplySelection, configured: bool) -> (r: Result<
    bool,
    String,
>)
    ensures
        ({
            let needed = sel.verify_deletes && exists|i: int|
                0 <= i < plan.deep_view().ops.len() && (
                #[trigger] plan.deep_view().ops[i]).action is DeleteIfOnAuthority;
            &&& r is Err <==> needed && !configured
            &&& r matches Ok(n) ==> n == needed
            &&& r matches Err(e) ==> e@
                == "verify-delete selected but no [authority] configured in the rules file"@
        }),
{
    let ghost ops = plan.deep_view().ops;
    if sel.verify_deletes {
        let mut i: usize = 0;
        while i < plan.ops.len()
            invariant
                ops == plan.ops.deep_view(),
                ops == plan.deep_view().ops,
                sel.verify_deletes,
                i <= plan.ops@.len(),
                forall|j: int|
                    0 <= j < i ==> !((#[trigger] ops[j]).action is DeleteIfOnAuthority),
            decreases plan.ops@.len() - i,
        {
            assert(ops[i as int] == plan.ops@[i as int].deep_view());
            if let HelmAction::DeleteIfOnAuthority = &plan.ops[i].action {
                if configured {
                    return Ok(true);
                } else {
                    return Err(
                        "verify-delete selected but no [authority] configured in the rules file".to_string(),
                    );
                }
            }
            i = i + 1;
        }
    }
    Ok(false)
}

/// What applying does with one operation.
#[derive(Debug, PartialEq, Eq)]
pub enum HelmStep {
    /// Move the version to this repository.
    Move(String),
    Delete,
    /// Delete, as the authority serves the same digest.
    VerifiedDelete,
    /// Leave it, with this warning.
    Skip(String),
    /// Its group is not selected.
    Nothing,
}

/// The contents of a [`HelmStep`].
pub enum HelmStepView {
    Move(Seq<char>),
    Delete,
    VerifiedDelete,
    Skip(Seq<char>),
    Nothing,
}

impl DeepView for HelmStep {
    type V = HelmStepView;

    open spec fn deep_view(&self) -> HelmStepView {
        match self {
            HelmStep::Move(d) => HelmStepView::Move(d@),
            HelmStep::Delete => HelmStepView::Delete,
            HelmStep::VerifiedDelete => HelmStepView::VerifiedDelete,
            HelmStep::Skip(s) => HelmStepView::Skip(s@),
            HelmStep::Nothing => HelmStepView::Nothing,
        }
    }
}

/// The warning for a version that the authority lacks.
pub open spec fn skip_warning(o: PlannedOpView) -> Seq<char> {
    "  SKIP delete "@ + o.name + ":"@ + o.version
        + " — authority does not serve this exact digest; republish upstream before removing the local copy"@
}

/// What applying a selection does with an operation. `authority` lists the
/// versions that the authority serves.
pub open spec fn helm_step(
    o: PlannedOpView,
    sel: ApplySelection,
    authority: Option<Seq<Seq<Seq<char>>>>,
) -> HelmStepView {
    match o.action {
        HelmActionView::Move { dest } => if sel.moves {
            HelmStepView::Move(dest)
        } else {
            HelmStepView::Nothing
        },
        HelmActionView::Delete => if sel.deletes {
            HelmStepView::Delete
        } else {
            HelmStepView::Nothing
        },
        HelmActionView::DeleteIfOnAuthority => if !sel.verify_deletes {
            HelmStepView::Nothing
        } else if authority matches Some(keys) && keys.contains(
            key3(o.name, o.version, o.digest),
        ) {
            HelmStepView::VerifiedDelete
        } else {
            HelmStepView::Skip(skip_warning(o))
        },
    }
}

/// Decide what applying a selection does with an operation.
pub fn apply_step(
    op: &PlannedOp,
    sel: &ApplySelection,
    authority: &Option<KeySet<(String, String, String)>>,
) -> (r: HelmStep)
    ensures
        r.deep_view() == helm_step(op.deep_view(), *sel, authority.deep_view()),
{
    match &op.action {
        HelmAction::Move { dest } => if sel.moves {
            HelmStep::Move(dest.clone())
        } else {
            HelmStep::Nothing
        },
        HelmAction::Delete => if sel.deletes {
            HelmStep::Delete
        } else {
            HelmStep::Nothing
        },
        HelmAction::DeleteIfOnAuthority => {
            if !sel.verify_deletes {
                return HelmStep::Nothing;
            }
            let key = (op.name.clone(), op.version.clone(), op.digest.clone());
            let present = match authority {
                Some(a) => a.contains(&key),
                None => false,
            };
            if present {
                HelmStep::VerifiedDelete
            } else {
                let mut s = "  SKIP delete ".to_string();
                s.append(op.name.as_str());
                s.append(":");
                s.append(op.version.as_str());
                s.append(
                    " — authority does not serve this exact digest; republish upstream before removing the local copy",
                );
                HelmStep::Skip(s)
            }
        },
    }
}

/// Decides an operation under a selection.
pub open spec fn step_under(
    sel: ApplySelection,
    authority: Option<Seq<Seq<Seq<char>>>>,
) -> spec_fn(PlannedOpView) -> HelmStepView {
    |o: PlannedOpView| helm_step(o, sel, authority)
}

/// Decide what applying a selection does with each operation of a plan, in order.
pub fn apply(
    plan: &Plan,
    sel: &ApplySelection,
    authority: &Option<KeySet<(String, String, String)>>,
) -> (r: Vec<HelmStep>)
    ensures
        r.deep_view() == plan.deep_view().ops.map_values(step_under(*sel, authority.deep_view())),
{
    let ghost ops = plan.ops.deep_view();
    let ghost f = step_under(*sel, authority.deep_view());
    let mut out: Vec<HelmStep> = Vec::new();
    let mut i: usize = 0;
    assert(out.deep_view() =~= ops.take(0).map_values(f));
    while i < plan.ops.len()
        invariant
            ops == plan.ops.deep_view(),
            f == step_under(*sel, authority.deep_view()),
            i <= plan.ops@.len(),
            out.deep_view() == ops.take(i as int).map_values(f),
        decreases plan.ops@.len() - i,
    {
        proof {
            lemma_map_step(ops, f, i as int);
        }
        push_item(&mut out, apply_step(&plan.ops[i], sel, authority));
        i = i + 1;
    }
    proof {
        lemma_take_all(ops);
    }
    out
}

/// Counts of what was applied.
#[derive(Debug, Clone, Copy, PartialEq, Eq)]
pub struct HelmTally {
    pub moved: u64,
    pub deleted: u64,
    pub verified_deleted: u64,
    pub skipped_missing: u64,
}

impl HelmTally {
    /// Count a step that was done.
    pub fn count(&mut self, step: &HelmStep)
        requires
            old(self).moved < u64::MAX,
            old(self).deleted < u64::MAX,
            old(self).verified_deleted < u64::MAX,
            old(self).skipped_missing < u64::MAX,
        ensures
            *final(self) == (match step.deep_view() {
                HelmStepView::Move(_) => HelmTally {
                    moved: (old(self).moved + 1) as u64,
                    ..*old(self)
                },
                HelmStepView::Delete => HelmTally {
                    deleted: (old(self).deleted + 1) as u64,
                    ..*old(self)
                },
                HelmStepView::VerifiedDelete => HelmTally {
                    verified_deleted: (old(self).verified_deleted + 1) as u64,
                    ..*old(self)
                },
                HelmStepView::Skip(_) => HelmTally {
                    skipped_missing: (old(self).skipped_missing + 1) as u64,
                    ..*old(self)
                },
                HelmStepView::Nothing => *old(self),
            }),
    {
        match step {
            HelmStep::Move(_) => {
                self.moved = self.moved + 1;
            },
            HelmStep::Delete => {
                self.deleted = self.deleted + 1;
            },
            HelmStep::VerifiedDelete => {
                self.verified_deleted = self.verified_deleted + 1;
            },
            HelmStep::Skip(_) => {
                self.skipped_missing = self.skipped_missing + 1;
            },
            HelmStep::Nothing => {},
        }
    }

    /// The closing line.
    pub fn line(&self) -> (s: String)
        ensures
            s@ == "\nApplied: "@ + decimal(self.moved as nat) + " moved, "@ + decimal(
                self.deleted as nat,
            ) + " deleted, "@ + decimal(self.verified_deleted as nat) + " verified-deleted, "@
                + decimal(self.skipped_missing as nat) + " skipped (not on authority)"@,
    {
        let a = number_text(self.moved);
        let b = number_text(self.deleted);
        let c = number_text(self.verified_deleted);
        let d = number_text(self.skipped_missing);
        let mut s = "\nApplied: ".to_string();
        s.append(a.as_str());
        s.append(" moved, ");
        s.append(b.as_str());
        s.append(" deleted, ");
        s.append(c.as_str());
        s.append(" verified-deleted, ");
        s.append(d.as_str());
        s.append(" skipped (not on authority)");
        s
    }
}

/// The keys of some versions hold the key of a version exactly where the version
/// is among them.
proof fn lemma_version_key(versions: Seq<ChartVersionView>, v: ChartVersionView)
    ensures
        versions.map_values(version_key()).contains(version_key()(v)) <==> versions.contains(v),
{
    let keys = versions.map_values(version_key());
    let k = version_key()(v);
    if versions.contains(v) {
        let i = choose|i: int| 0 <= i < versions.len() && versions[i] == v;
        assert(keys[i] == k);
    }
    if keys.contains(k) {
        let i = choose|i: int| 0 <= i < keys.len() && keys[i] == k;
        let w = versions[i];
        assert(key3(w.name, w.version, w.digest) == k);
        assert(k[0] == v.name && k[1] == v.version && k[2] == v.digest);
        assert(key3(w.name, w.version, w.digest)[0] == w.name);
        assert(key3(w.name, w.version, w.digest)[1] == w.version);
        assert(key3(w.name, w.version, w.digest)[2] == w.digest);
        assert(w == v);
    }
}

/// A released version is dropped exactly where the authority's index lists the same
/// name, version and digest, and is skipped otherwise.
pub proof fn law_released_version_needs_the_authority(
    o: PlannedOpView,
    sel: ApplySelection,
    versions: Seq<ChartVersionView>,
)
    requires
        o.action is DeleteIfOnAuthority,
        sel.verify_deletes,
    ensures
        ({
            let step = helm_step(
                o,
                sel,
                Some(sorted_keys(versions.map_values(version_key()))),
            );
            let listed = versions.contains(
                ChartVersionView { name: o.name, version: o.version, digest: o.digest },
            );
            &&& step is VerifiedDelete <==> listed
            &&& step is Skip <==> !listed
        }),
{
    let v = ChartVersionView { name: o.name, version: o.version, digest: o.digest };
    let keys = versions.map_values(version_key());
    lemma_sorted_keys(keys);
    lemma_version_key(versions, v);
    assert(sorted_keys(keys).contains(version_key()(v)) <==> keys.contains(version_key()(v)));
}

/// Without an answer from the authority no released version is dropped.
pub proof fn law_no_authority_no_drop(o: PlannedOpView, sel: ApplySelection)
    requires
        o.action is DeleteIfOnAuthority,
    ensures
        !(helm_step(o, sel, None) is VerifiedDelete),
        !(helm_step(o, sel, None) is Delete),
        !(helm_step(o, sel, None) is Move),
{
}

/// An operation whose group is not selected is not touched.
pub proof fn law_unselected_is_untouched(
    o: PlannedOpView,
    sel: ApplySelection,
    authority: Option<Seq<Seq<Seq<char>>>>,
)
    requires
        o.action is Move ==> !sel.moves,
        o.action is Delete ==> !sel.deletes,
        o.action is DeleteIfOnAuthority ==> !sel.verify_deletes,
    ensures
        helm_step(o, sel, authority) is Nothing,
{
}

} // verus!
