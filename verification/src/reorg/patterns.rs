//! Patterns: regular expressions for tags and versions.
use vstd::prelude::*;

verus! {

/// Why the regex crate refuses a regular expression.
#[verifier::external_type_specification]
#[verifier::external_body]
pub struct ExRegexError(regex::Error);

/// A compiled regular expression of the regex crate.
#[verifier::external_type_specification]
#[verifier::external_body]
pub struct ExRegex(regex::Regex);

/// Whether a regular expression is well formed and within the size limit.
pub uninterp spec fn regex_compiles(source: Seq<char>) -> bool;

/// Whether a regular expression matches somewhere in a text.
pub uninterp spec fn regex_matches(source: Seq<char>, text: Seq<char>) -> bool;

/// A compiled regular expression together with its source. The fields are
/// private and only [`compile_regex`] makes a value.
#[derive(Debug)]
pub struct TagPattern {
    source: String,
    re: regex::Regex,
}

impl View for TagPattern {
    type V = Seq<char>;

    closed spec fn view(&self) -> Seq<char> {
        self.source@
    }
}

impl DeepView for TagPattern {
    type V = Seq<char>;

    open spec fn deep_view(&self) -> Seq<char> {
        self@
    }
}

/// Calls `regex::Regex::new`. Whether it succeeds depends on the source alone,
/// and the compiled pattern belongs to that source.
#[verifier::external_body]
pub(crate) fn compile_regex(source: &str) -> (r: Result<TagPattern, regex::Error>)
    ensures
        r is Ok == regex_compiles(source@),
        r matches Ok(p) ==> p@ == source@,
{
    regex::Regex::new(source).map(|re| TagPattern { source: source.to_string(), re })
}

impl TagPattern {
    /// Calls `regex::Regex::is_match`, whose answer depends on the source of the
    /// pattern and on the text alone.
    #[verifier::external_body]
    pub(crate) fn search(&self, text: &str) -> (r: bool)
        ensures
            r == regex_matches(self@, text@),
    {
        self.re.is_match(text)
    }

    /// Whether the pattern matches a text.
    pub fn is_match(&self, text: &str) -> (r: bool)
        ensures
            r == regex_matches(self@, text@),
    {
        self.search(text)
    }
}

} // verus!
