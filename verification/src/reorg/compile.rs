//! Compiled rules: validated once, then asked what to do with each tag.
use crate::ordered::{key1, lookup, set_of, sorted_keys, text_keys, KeySet, OrderedMap};
use crate::reorg::patterns::{compile_regex, regex_compiles, TagPattern};
use crate::reorg::rules::{Action, Group, ImageClassesFile, MismatchPolicy, Rule, RulesFile};
use crate::seqs::{
    collect_ok, lemma_collect_err, lemma_collect_step, lemma_filter_map_step, lemma_take_all,
    push_all, push_item, result_view,
};
use crate::text::{copy_option, copy_texts, has_prefix, join, joined, same_text, starts_with};
use vstd::prelude::*;

verus! {

/// A classes file as the caller found it.
#[derive(Debug)]
pub enum ClassesSource {
    /// Read and parsed.
    Loaded(ImageClassesFile),
    /// The file at this path could not be read.
    Unreadable(String),
    /// The file at this path could not be parsed.
    Malformed(String),
}

/// The contents of a [`ClassesSource`].
pub enum ClassesView {
    Loaded(Seq<Seq<char>>, Seq<Seq<char>>),
    Unreadable(Seq<char>),
    Malformed(Seq<char>),
}

impl DeepView for ClassesSource {
    type V = ClassesView;

    open spec fn deep_view(&self) -> ClassesView {
        match self {
            ClassesSource::Loaded(f) => ClassesView::Loaded(
                f.insight_images.deep_view(),
                f.aux_images.deep_view(),
            ),
            ClassesSource::Unreadable(p) => ClassesView::Unreadable(p@),
            ClassesSource::Malformed(p) => ClassesView::Malformed(p@),
        }
    }
}

/// What is wrong with a rule.
#[derive(Debug)]
pub enum RulesError {
    MoveNeedsDest(String),
    DeleteIfAbsentNeedsCheck(String),
    ReconcileNeedsTargets(String),
    ClassifyNeedsTargets(String),
    ClassesUnreadable(String),
    ClassesMalformed(String),
    ClassesOverlap(String, Vec<String>),
    ClassifyEmpty(String),
    BadPattern(String, String),
}

/// The contents of a [`RulesError`].
pub enum RulesErrorView {
    MoveNeedsDest(Seq<char>),
    DeleteIfAbsentNeedsCheck(Seq<char>),
    ReconcileNeedsTargets(Seq<char>),
    ClassifyNeedsTargets(Seq<char>),
    ClassesUnreadable(Seq<char>),
    ClassesMalformed(Seq<char>),
    ClassesOverlap(Seq<char>, Seq<Seq<char>>),
    ClassifyEmpty(Seq<char>),
    BadPattern(Seq<char>, Seq<char>),
}

impl DeepView for RulesError {
    type V = RulesErrorView;

    open spec fn deep_view(&self) -> RulesErrorView {
        match self {
            RulesError::MoveNeedsDest(m) => RulesErrorView::MoveNeedsDest(m@),
            RulesError::DeleteIfAbsentNeedsCheck(m) => RulesErrorView::DeleteIfAbsentNeedsCheck(m@),
            RulesError::ReconcileNeedsTargets(m) => RulesErrorView::ReconcileNeedsTargets(m@),
            RulesError::ClassifyNeedsTargets(m) => RulesErrorView::ClassifyNeedsTargets(m@),
            RulesError::ClassesUnreadable(p) => RulesErrorView::ClassesUnreadable(p@),
            RulesError::ClassesMalformed(p) => RulesErrorView::ClassesMalformed(p@),
            RulesError::ClassesOverlap(m, i) => RulesErrorView::ClassesOverlap(m@, i.deep_view()),
            RulesError::ClassifyEmpty(m) => RulesErrorView::ClassifyEmpty(m@),
            RulesError::BadPattern(m, s) => RulesErrorView::BadPattern(m@, s@),
        }
    }
}

impl RulesErrorView {
    /// The message shown for an error.
    pub open spec fn message(self) -> Seq<char> {
        match self {
            RulesErrorView::MoveNeedsDest(m) => "rule match='"@ + m
                + "' action=move requires 'dest'"@,
            RulesErrorView::DeleteIfAbsentNeedsCheck(m) => "rule match='"@ + m
                + "' action=delete_if_absent requires 'check'"@,
            RulesErrorView::ReconcileNeedsTargets(m) => "rule match='"@ + m
                + "' action=reconcile requires 'check' and 'dest'"@,
            RulesErrorView::ClassifyNeedsTargets(m) => "rule match='"@ + m
                + "' action=classify requires 'aux_dest' and 'insight_repo'"@,
            RulesErrorView::ClassesUnreadable(p) => "read classes_file '"@ + p + "'"@,
            RulesErrorView::ClassesMalformed(p) => "parse classes_file '"@ + p + "'"@,
            RulesErrorView::ClassesOverlap(m, i) => "classify rule match='"@ + m
                + "': image(s) on BOTH insight and aux lists: "@ + joined(i, ", "@),
            RulesErrorView::ClassifyEmpty(m) => "rule match='"@ + m
                + "' action=classify has no images (set classes_file or inline lists)"@,
            RulesErrorView::BadPattern(m, s) => "compile regex for match '"@ + m + "' (resolved: '"@
                + s + "')"@,
        }
    }
}

impl RulesError {
    /// The message shown for this error.
    pub fn message(&self) -> (r: String)
        ensures
            r@ == self.deep_view().message(),
    {
        match self {
            RulesError::MoveNeedsDest(m) => quoted(
                "rule match='",
                m.as_str(),
                "' action=move requires 'dest'",
            ),
            RulesError::DeleteIfAbsentNeedsCheck(m) => quoted(
                "rule match='",
                m.as_str(),
                "' action=delete_if_absent requires 'check'",
            ),
            RulesError::ReconcileNeedsTargets(m) => quoted(
                "rule match='",
                m.as_str(),
                "' action=reconcile requires 'check' and 'dest'",
            ),
            RulesError::ClassifyNeedsTargets(m) => quoted(
                "rule match='",
                m.as_str(),
                "' action=classify requires 'aux_dest' and 'insight_repo'",
            ),
            RulesError::ClassesUnreadable(p) => quoted("read classes_file '", p.as_str(), "'"),
            RulesError::ClassesMalformed(p) => quoted("parse classes_file '", p.as_str(), "'"),
            RulesError::ClassesOverlap(m, i) => {
                let mut s = quoted(
                    "classify rule match='",
                    m.as_str(),
                    "': image(s) on BOTH insight and aux lists: ",
                );
                let list = join(i.as_slice(), ", ");
                s.append(list.as_str());
                s
            },
            RulesError::ClassifyEmpty(m) => quoted(
                "rule match='",
                m.as_str(),
                "' action=classify has no images (set classes_file or inline lists)",
            ),
            RulesError::BadPattern(m, src) => {
                let mut s = quoted("compile regex for match '", m.as_str(), "' (resolved: '");
                s.append(src.as_str());
                s.append("')");
                s
            },
        }
    }
}

/// Three pieces of text, one after the other.
fn quoted(before: &str, what: &str, after: &str) -> (r: String)
    ensures
        r@ == before@ + what@ + after@,
{
    let mut s = before.to_string();
    s.append(what);
    s.append(after);
    s
}

/// A rule ready to be applied.
#[derive(Debug)]
pub struct CompiledRule {
    /// Friendly class label.
    pub class: String,
    pub re: TagPattern,
    pub images: Vec<String>,
    pub action: Action,
    pub dest: Option<String>,
    pub check: Option<String>,
    pub on_mismatch: MismatchPolicy,
    pub aux_dest: Option<String>,
    pub insight_repo: Option<String>,
    /// The merged insight-image list of a classify rule.
    pub insight_images: KeySet<String>,
    /// The merged aux-image list of a classify rule.
    pub aux_images: KeySet<String>,
}

/// The contents of a [`CompiledRule`].
#[verifier::ext_equal]
pub struct CompiledRuleView {
    pub class: Seq<char>,
    pub pattern: Seq<char>,
    pub images: Seq<Seq<char>>,
    pub action: Action,
    pub dest: Option<Seq<char>>,
    pub check: Option<Seq<char>>,
    pub on_mismatch: MismatchPolicy,
    pub aux_dest: Option<Seq<char>>,
    pub insight_repo: Option<Seq<char>>,
    pub insight_images: Seq<Seq<Seq<char>>>,
    pub aux_images: Seq<Seq<Seq<char>>>,
}

impl DeepView for CompiledRule {
    type V = CompiledRuleView;

    open spec fn deep_view(&self) -> CompiledRuleView {
        CompiledRuleView {
            class: self.class@,
            pattern: self.re@,
            images: self.images.deep_view(),
            action: self.action,
            dest: self.dest.deep_view(),
            check: self.check.deep_view(),
            on_mismatch: self.on_mismatch,
            aux_dest: self.aux_dest.deep_view(),
            insight_repo: self.insight_repo.deep_view(),
            insight_images: self.insight_images@,
            aux_images: self.aux_images@,
        }
    }
}

/// A group with compiled rules.
#[derive(Debug)]
pub struct CompiledGroup {
    pub format: String,
    pub source_repos: Vec<String>,
    pub first_party_prefixes: Vec<String>,
    pub purge_repos: Vec<String>,
    pub retired_prefixes: Vec<String>,
    pub rules: Vec<CompiledRule>,
}

/// The contents of a [`CompiledGroup`].
#[verifier::ext_equal]
pub struct CompiledGroupView {
    pub format: Seq<char>,
    pub source_repos: Seq<Seq<char>>,
    pub first_party_prefixes: Seq<Seq<char>>,
    pub purge_repos: Seq<Seq<char>>,
    pub retired_prefixes: Seq<Seq<char>>,
    pub rules: Seq<CompiledRuleView>,
}

impl DeepView for CompiledGroup {
    type V = CompiledGroupView;

    open spec fn deep_view(&self) -> CompiledGroupView {
        CompiledGroupView {
            format: self.format@,
            source_repos: self.source_repos.deep_view(),
            first_party_prefixes: self.first_party_prefixes.deep_view(),
            purge_repos: self.purge_repos.deep_view(),
            retired_prefixes: self.retired_prefixes.deep_view(),
            rules: self.rules.deep_view(),
        }
    }
}

/// Whether one of the prefixes begins the image name.
pub open spec fn under_prefix(prefixes: Seq<Seq<char>>, image: Seq<char>) -> bool {
    exists|i: int| 0 <= i < prefixes.len() && has_prefix(image, #[trigger] prefixes[i])
}

/// Whether an image name begins with one of some prefixes.
pub fn has_any_prefix(prefixes: &[String], image: &str) -> (r: bool)
    ensures
        r == under_prefix(prefixes.deep_view(), image@),
{
    let ghost all = prefixes.deep_view();
    let mut i: usize = 0;
    while i < prefixes.len()
        invariant
            all == prefixes.deep_view(),
            i <= prefixes@.len(),
            forall|j: int| 0 <= j < i ==> !has_prefix(image@, #[trigger] all[j]),
        decreases prefixes@.len() - i,
    {
        assert(all[i as int] == prefixes@[i as int]@);
        if starts_with(image, prefixes[i].as_str()) {
            return true;
        }
        i = i + 1;
    }
    false
}

impl CompiledGroup {
    /// Whether the image is one of ours.
    pub fn is_first_party(&self, image: &str) -> (r: bool)
        ensures
            r == under_prefix(self.deep_view().first_party_prefixes, image@),
    {
        has_any_prefix(self.first_party_prefixes.as_slice(), image)
    }

    /// Whether the image is under a retired namespace.
    pub fn is_retired(&self, image: &str) -> (r: bool)
        ensures
            r == under_prefix(self.deep_view().retired_prefixes, image@),
    {
        has_any_prefix(self.retired_prefixes.as_slice(), image)
    }
}

/// The label of a rule's class: its `match`, and `catch-all` for `.*`.
pub open spec fn class_of(m: Seq<char>) -> Seq<char> {
    if m == ".*"@ {
        "catch-all"@
    } else {
        m
    }
}

/// Friendly label for a rule's raw `match` pattern.
pub fn class_label(m: &str) -> (r: &str)
    ensures
        r@ == class_of(m@),
{
    if same_text(m, ".*") {
        "catch-all"
    } else {
        m
    }
}

/// What a rule's `match` stands for: the pattern of that name, or itself.
pub open spec fn resolved_match(
    patterns: Seq<(Seq<Seq<char>>, Seq<char>)>,
    m: Seq<char>,
) -> Seq<char> {
    match lookup(patterns, key1(m)) {
        Some(p) => p,
        None => m,
    }
}

/// The regular expression that a `match` is compiled to: anchored at both ends.
pub open spec fn anchored(source: Seq<char>) -> Seq<char> {
    "^(?:"@ + source + ")$"@
}

/// Resolve a rule's `match` (pattern name or inline regex) to an anchored
/// pattern.
pub fn compile_match(patterns: &OrderedMap<String, String>, match_: &str) -> (r: Result<
    TagPattern,
    RulesError,
>)
    ensures
        result_view(r) == match_spec(patterns@, match_@),
{
    let name = match_.to_string();
    let source = match patterns.get(&name) {
        Some(p) => p.as_str(),
        None => match_,
    };
    let full = quoted("^(?:", source, ")$");
    match compile_regex(full.as_str()) {
        Ok(re) => Ok(re),
        Err(_) => Err(RulesError::BadPattern(match_.to_string(), source.to_string())),
    }
}

/// What compiling a `match` gives: the anchored pattern, or the error.
pub open spec fn match_spec(patterns: Seq<(Seq<Seq<char>>, Seq<char>)>, m: Seq<char>) -> Result<
    Seq<char>,
    RulesErrorView,
> {
    let source = resolved_match(patterns, m);
    if regex_compiles(anchored(source)) {
        Ok(anchored(source))
    } else {
        Err(RulesErrorView::BadPattern(m, source))
    }
}

/// The anchored pattern of released tags: none where the rules name no such
/// pattern, or where it is no regular expression.
pub open spec fn released_spec(patterns: Seq<(Seq<Seq<char>>, Seq<char>)>) -> Option<Seq<char>> {
    match lookup(patterns, key1("released"@)) {
        Some(source) => if regex_compiles(anchored(source)) {
            Some(anchored(source))
        } else {
            None
        },
        None => None,
    }
}

/// The pattern that the rules name `released`, if they name one.
pub fn released_pattern(patterns: &OrderedMap<String, String>) -> (r: Option<TagPattern>)
    ensures
        r.deep_view() == released_spec(patterns@),
{
    let name = "released".to_string();
    if !patterns.contains_key(&name) {
        return None;
    }
    match compile_match(patterns, "released") {
        Ok(re) => Some(re),
        Err(_) => None,
    }
}

/// The images on both lists, ascending.
pub open spec fn overlap(insight: Seq<Seq<Seq<char>>>, aux: Seq<Seq<Seq<char>>>) -> Seq<Seq<char>> {
    insight.filter_map(
        |k: Seq<Seq<char>>|
            if aux.contains(k) {
                Some(k[0])
            } else {
                None
            },
    )
}

/// The two lists of the classes file that a rule names, empty without one.
pub open spec fn file_lists(
    r: Rule,
    files: Seq<(Seq<Seq<char>>, ClassesView)>,
) -> Result<(Seq<Seq<char>>, Seq<Seq<char>>), RulesErrorView> {
    match r.classes_file {
        None => Ok((Seq::empty(), Seq::empty())),
        Some(path) => match lookup(files, key1(path@)) {
            Some(ClassesView::Loaded(i, a)) => Ok((i, a)),
            Some(ClassesView::Unreadable(p)) => Err(RulesErrorView::ClassesUnreadable(p)),
            Some(ClassesView::Malformed(p)) => Err(RulesErrorView::ClassesMalformed(p)),
            None => Err(RulesErrorView::ClassesUnreadable(path@)),
        },
    }
}

/// The merged image classes of a classify rule: inline lists and file lists
/// together, which must not share an image.
pub open spec fn image_classes(
    r: Rule,
    files: Seq<(Seq<Seq<char>>, ClassesView)>,
) -> Result<(Seq<Seq<Seq<char>>>, Seq<Seq<Seq<char>>>), RulesErrorView> {
    match file_lists(r, files) {
        Err(e) => Err(e),
        Ok((i, a)) => {
            let insight = sorted_keys(text_keys(r.insight_images.deep_view() + i));
            let aux = sorted_keys(text_keys(r.aux_images.deep_view() + a));
            if overlap(insight, aux).len() > 0 {
                Err(RulesErrorView::ClassesOverlap(r.match_@, overlap(insight, aux)))
            } else {
                Ok((insight, aux))
            }
        },
    }
}

/// Two sets of images, or what is wrong with them.
pub open spec fn classes_view(
    r: Result<(KeySet<String>, KeySet<String>), RulesError>,
) -> Result<(Seq<Seq<Seq<char>>>, Seq<Seq<Seq<char>>>), RulesErrorView> {
    match r {
        Ok((i, a)) => Ok((i@, a@)),
        Err(e) => Err(e.deep_view()),
    }
}

/// The images on both lists.
fn shared_images(insight: &KeySet<String>, aux: &KeySet<String>) -> (r: Vec<String>)
    ensures
        r.deep_view() == overlap(insight@, aux@),
{
    let mut out: Vec<String> = Vec::new();
    let ghost f = |k: Seq<Seq<char>>|
        if aux@.contains(k) {
            Some(k[0])
        } else {
            None
        };
    let mut i: usize = 0;
    assert(out.deep_view() =~= insight@.take(0).filter_map(f));
    while i < insight.len()
        invariant
            i <= insight@.len(),
            f == (|k: Seq<Seq<char>>|
                if aux@.contains(k) {
                    Some(k[0])
                } else {
                    None
                }),
            out.deep_view() == insight@.take(i as int).filter_map(f),
        decreases insight@.len() - i,
    {
        proof {
            lemma_filter_map_step(insight@, f, i as int);
        }
        let k = insight.at(i);
        if aux.contains(k) {
            assert(insight@[i as int][0] == k@);
            push_item(&mut out, k.clone());
        }
        i = i + 1;
    }
    proof {
        lemma_take_all(insight@);
    }
    out
}

/// Merge a classify rule's inline image lists with those of its classes file.
/// An image on both lists is an error: the split must be disjoint.
pub fn load_image_classes(r: &Rule, files: &OrderedMap<String, ClassesSource>) -> (res: Result<
    (KeySet<String>, KeySet<String>),
    RulesError,
>)
    ensures
        classes_view(res) == image_classes(*r, files@),
{
    let mut insight = copy_texts(r.insight_images.as_slice());
    let mut aux = copy_texts(r.aux_images.as_slice());
    proof {
        assert(insight.deep_view() + Seq::<Seq<char>>::empty() =~= insight.deep_view());
        assert(aux.deep_view() + Seq::<Seq<char>>::empty() =~= aux.deep_view());
    }
    match &r.classes_file {
        None => {},
        Some(path) => match files.get(path) {
            None => {
                return Err(RulesError::ClassesUnreadable(path.clone()));
            },
            Some(ClassesSource::Unreadable(p)) => {
                return Err(RulesError::ClassesUnreadable(p.clone()));
            },
            Some(ClassesSource::Malformed(p)) => {
                return Err(RulesError::ClassesMalformed(p.clone()));
            },
            Some(ClassesSource::Loaded(f)) => {
                push_all(&mut insight, copy_texts(f.insight_images.as_slice()));
                push_all(&mut aux, copy_texts(f.aux_images.as_slice()));
            },
        },
    }
    let insight_set = set_of(insight.as_slice());
    let aux_set = set_of(aux.as_slice());
    let both = shared_images(&insight_set, &aux_set);
    if both.len() > 0 {
        Err(RulesError::ClassesOverlap(r.match_.clone(), both))
    } else {
        Ok((insight_set, aux_set))
    }
}

/// The image classes that a rule is compiled with, after the checks on the
/// fields that its action needs.
pub open spec fn checked_classes(
    r: Rule,
    files: Seq<(Seq<Seq<char>>, ClassesView)>,
) -> Result<(Seq<Seq<Seq<char>>>, Seq<Seq<Seq<char>>>), RulesErrorView> {
    match r.action {
        Action::Move if r.dest is None => Err(RulesErrorView::MoveNeedsDest(r.match_@)),
        Action::DeleteIfAbsent if r.check is None => Err(
            RulesErrorView::DeleteIfAbsentNeedsCheck(r.match_@),
        ),
        Action::Reconcile if r.check is None || r.dest is None => Err(
            RulesErrorView::ReconcileNeedsTargets(r.match_@),
        ),
        Action::Classify => if r.aux_dest is None || r.insight_repo is None {
            Err(RulesErrorView::ClassifyNeedsTargets(r.match_@))
        } else {
            match image_classes(r, files) {
                Err(e) => Err(e),
                Ok((i, a)) => if i.len() == 0 && a.len() == 0 {
                    Err(RulesErrorView::ClassifyEmpty(r.match_@))
                } else {
                    Ok((i, a))
                },
            }
        },
        _ => Ok((Seq::empty(), Seq::empty())),
    }
}

/// What compiling one rule gives.
pub open spec fn rule_spec(
    patterns: Seq<(Seq<Seq<char>>, Seq<char>)>,
    r: Rule,
    files: Seq<(Seq<Seq<char>>, ClassesView)>,
) -> Result<CompiledRuleView, RulesErrorView> {
    match checked_classes(r, files) {
        Err(e) => Err(e),
        Ok((insight, aux)) => match match_spec(patterns, r.match_@) {
            Err(e) => Err(e),
            Ok(pattern) => Ok(
                CompiledRuleView {
                    class: class_of(r.match_@),
                    pattern,
                    images: r.images.deep_view(),
                    action: r.action,
                    dest: r.dest.deep_view(),
                    check: r.check.deep_view(),
                    on_mismatch: match r.on_mismatch {
                        Some(p) => p,
                        None => MismatchPolicy::Delete,
                    },
                    aux_dest: r.aux_dest.deep_view(),
                    insight_repo: r.insight_repo.deep_view(),
                    insight_images: insight,
                    aux_images: aux,
                },
            ),
        },
    }
}

/// What compiling a list of rules gives: the rules in order, or the first error.
pub open spec fn rule_results(
    patterns: Seq<(Seq<Seq<char>>, Seq<char>)>,
    rules: Seq<Rule>,
    files: Seq<(Seq<Seq<char>>, ClassesView)>,
) -> Seq<Result<CompiledRuleView, RulesErrorView>> {
    rules.map_values(|r: Rule| rule_spec(patterns, r, files))
}

/// What compiling one group gives.
pub open spec fn group_spec(
    patterns: Seq<(Seq<Seq<char>>, Seq<char>)>,
    g: Group,
    files: Seq<(Seq<Seq<char>>, ClassesView)>,
) -> Result<CompiledGroupView, RulesErrorView> {
    match collect_ok(rule_results(patterns, g.rules@, files)) {
        Err(e) => Err(e),
        Ok(rules) => Ok(
            CompiledGroupView {
                format: g.format@,
                source_repos: g.source_repos.deep_view(),
                first_party_prefixes: g.first_party_prefixes.deep_view(),
                purge_repos: g.purge_repos.deep_view(),
                retired_prefixes: g.retired_prefixes.deep_view(),
                rules,
            },
        ),
    }
}

/// What compiling each group of a rules file gives.
pub open spec fn group_results(
    rules: RulesFile,
    files: Seq<(Seq<Seq<char>>, ClassesView)>,
) -> Seq<Result<CompiledGroupView, RulesErrorView>> {
    rules.group@.map_values(|g: Group| group_spec(rules.patterns@, g, files))
}

/// Check the fields that a rule's action needs and gather its image classes.
fn check_rule(r: &Rule, files: &OrderedMap<String, ClassesSource>) -> (res: Result<
    (KeySet<String>, KeySet<String>),
    RulesError,
>)
    ensures
        classes_view(res) == checked_classes(*r, files@),
{
    match r.action {
        Action::Move => if r.dest.is_none() {
            return Err(RulesError::MoveNeedsDest(r.match_.clone()));
        },
        Action::DeleteIfAbsent => if r.check.is_none() {
            return Err(RulesError::DeleteIfAbsentNeedsCheck(r.match_.clone()));
        },
        Action::Reconcile => if r.check.is_none() || r.dest.is_none() {
            return Err(RulesError::ReconcileNeedsTargets(r.match_.clone()));
        },
        Action::Classify => {
            if r.aux_dest.is_none() || r.insight_repo.is_none() {
                return Err(RulesError::ClassifyNeedsTargets(r.match_.clone()));
            }
            let (i, a) = match load_image_classes(r, files) {
                Ok(lists) => lists,
                Err(e) => {
                    return Err(e);
                },
            };
            if i.is_empty() && a.is_empty() {
                return Err(RulesError::ClassifyEmpty(r.match_.clone()));
            }
            return Ok((i, a));
        },
        Action::Delete => {},
        Action::Leave => {},
    }
    Ok((KeySet::new(), KeySet::new()))
}

/// Compile and validate one rule.
fn compile_rule(
    patterns: &OrderedMap<String, String>,
    r: &Rule,
    files: &OrderedMap<String, ClassesSource>,
) -> (res: Result<CompiledRule, RulesError>)
    ensures
        result_view(res) == rule_spec(patterns@, *r, files@),
{
    let (insight_images, aux_images) = match check_rule(r, files) {
        Ok(lists) => lists,
        Err(e) => {
            return Err(e);
        },
    };
    let re = match compile_match(patterns, r.match_.as_str()) {
        Ok(re) => re,
        Err(e) => {
            return Err(e);
        },
    };
    Ok(
        CompiledRule {
            class: class_label(r.match_.as_str()).to_string(),
            re,
            images: copy_texts(r.images.as_slice()),
            action: r.action,
            dest: copy_option(&r.dest),
            check: copy_option(&r.check),
            on_mismatch: match r.on_mismatch {
                Some(p) => p,
                None => MismatchPolicy::Delete,
            },
            aux_dest: copy_option(&r.aux_dest),
            insight_repo: copy_option(&r.insight_repo),
            insight_images,
            aux_images,
        },
    )
}

/// Compile and validate the rules of one group.
fn compile_group(
    patterns: &OrderedMap<String, String>,
    g: &Group,
    files: &OrderedMap<String, ClassesSource>,
) -> (res: Result<CompiledGroup, RulesError>)
    ensures
        result_view(res) == group_spec(patterns@, *g, files@),
{
    let mut rules: Vec<CompiledRule> = Vec::new();
    let ghost results = rule_results(patterns@, g.rules@, files@);
    let mut i: usize = 0;
    assert(rules.deep_view() =~= Seq::<CompiledRuleView>::empty());
    while i < g.rules.len()
        invariant
            results == rule_results(patterns@, g.rules@, files@),
            i <= g.rules@.len(),
            collect_ok(results.take(i as int)) == Ok::<Seq<CompiledRuleView>, RulesErrorView>(
                rules.deep_view(),
            ),
        decreases g.rules@.len() - i,
    {
        proof {
            lemma_collect_step(results, i as int);
        }
        match compile_rule(patterns, &g.rules[i], files) {
            Ok(c) => push_item(&mut rules, c),
            Err(e) => {
                proof {
                    lemma_collect_err(results, i + 1);
                }
                return Err(e);
            },
        }
        i = i + 1;
    }
    proof {
        lemma_take_all(results);
    }
    Ok(
        CompiledGroup {
            format: g.format.clone(),
            source_repos: copy_texts(g.source_repos.as_slice()),
            first_party_prefixes: copy_texts(g.first_party_prefixes.as_slice()),
            purge_repos: copy_texts(g.purge_repos.as_slice()),
            retired_prefixes: copy_texts(g.retired_prefixes.as_slice()),
            rules,
        },
    )
}

/// Compile and validate every group's rules. `files` holds the classes files
/// that classify rules name, by the path that the rule gives. The first problem
/// in file order is the error.
pub fn compile_groups(rules: &RulesFile, files: &OrderedMap<String, ClassesSource>) -> (res: Result<
    Vec<CompiledGroup>,
    RulesError,
>)
    ensures
        result_view(res) == collect_ok(group_results(*rules, files@)),
{
    let mut out: Vec<CompiledGroup> = Vec::new();
    let ghost results = group_results(*rules, files@);
    let mut i: usize = 0;
    assert(out.deep_view() =~= Seq::<CompiledGroupView>::empty());
    while i < rules.group.len()
        invariant
            results == group_results(*rules, files@),
            i <= rules.group@.len(),
            collect_ok(results.take(i as int)) == Ok::<Seq<CompiledGroupView>, RulesErrorView>(
                out.deep_view(),
            ),
        decreases rules.group@.len() - i,
    {
        proof {
            lemma_collect_step(results, i as int);
        }
        match compile_group(&rules.patterns, &rules.group[i], files) {
            Ok(c) => push_item(&mut out, c),
            Err(e) => {
                proof {
                    lemma_collect_err(results, i + 1);
                }
                return Err(e);
            },
        }
        i = i + 1;
    }
    proof {
        lemma_take_all(results);
    }
    Ok(out)
}

} // verus!
