//! Regular expressions, through the `regex` crate.
//!
//! What the crate computes is not restated here: each result is given a name
//! over the pattern's text and the haystack, and the library's contracts are
//! stated over those names.
use vstd::prelude::*;
use regex::Regex;

verus! {

/// `regex::Regex`, a compiled expression, opaque here.
#[verifier::external_type_specification]
#[verifier::external_body]
pub struct ExRegex(Regex);

/// Whether `regex::Regex::new` accepts the pattern.
pub uninterp spec fn regex_compiles(pattern: Seq<char>) -> bool;

/// What `regex::Regex::replace_all` gives for the pattern, the haystack and
/// the replacement (in which `$1` stands for the first group).
pub uninterp spec fn regex_replace_all(
    pattern: Seq<char>,
    haystack: Seq<char>,
    replacement: Seq<char>,
) -> Seq<char>;

/// What `regex::Regex::captures_iter` yields for the pattern and the
/// haystack, each match taken to the text of its first group (`None` where
/// that group took no part in the match).
pub uninterp spec fn regex_group_one_captures(pattern: Seq<char>, haystack: Seq<char>) -> Seq<
    Option<Seq<char>>,
>;

/// A compiled regular expression together with the text it was compiled
/// from; values are made only by `compile`.
pub struct CompiledPattern {
    source: String,
    regex: Regex,
}

impl CompiledPattern {
    /// The text the expression was compiled from.
    pub closed spec fn source_view(&self) -> Seq<char> {
        self.source@
    }

    /// Compiles `source` with `regex::Regex::new`. Trusted: the result is
    /// `Some` exactly when the crate accepts the pattern, and then it keeps
    /// `source` as its text.
    #[verifier::external_body]
    pub(crate) fn compile(source: &str) -> (res: Option<CompiledPattern>)
        ensures
            res is Some <==> regex_compiles(source@),
            res matches Some(p) ==> p.source_view() == source@,
    {
        match Regex::new(source) {
            Ok(regex) => Some(CompiledPattern { source: source.to_string(), regex }),
            Err(_) => None,
        }
    }

    /// Every non-overlapping match in `haystack` replaced by `replacement`
    /// (`regex::Regex::replace_all`). Trusted: the result is the crate's,
    /// named by `regex_replace_all` over this pattern's text and the
    /// arguments.
    #[verifier::external_body]
    pub(crate) fn replace_all(&self, haystack: &str, replacement: &str) -> (res: String)
        ensures
            res@ == regex_replace_all(self.source_view(), haystack@, replacement@),
    {
        self.regex.replace_all(haystack, replacement).to_string()
    }

    /// The text of the first group of each successive match in `haystack`
    /// (`regex::Regex::captures_iter`). Trusted: the result is the crate's,
    /// named by `regex_group_one_captures` over this pattern's text and the
    /// haystack.
    #[verifier::external_body]
    pub(crate) fn group_one_captures(&self, haystack: &str) -> (res: Vec<Option<String>>)
        ensures
            res.deep_view() == regex_group_one_captures(self.source_view(), haystack@),
    {
        let mut out = Vec::new();
        for caps in self.regex.captures_iter(haystack) {
            out.push(caps.get(1).map(|m| m.as_str().to_string()));
        }
        out
    }
}

} // verus!
