//! Regular expressions, as the `regex` crate matches them.
//!
//! The library never looks inside a compiled regular expression. It keeps the
//! text of a pattern that compiles, hands pattern and haystack to the crate,
//! and takes back strings and offsets. What the crate finds is a function of
//! those texts alone, which the names below stand for.

use vstd::prelude::*;

verus! {

/// `regex::Regex`, a compiled regular expression. The library makes one to
/// learn whether a pattern compiles and never looks inside it.
#[verifier::external_type_specification]
#[verifier::external_body]
pub struct ExRegex(regex::Regex);

/// `regex::Error`, the reason why a pattern does not compile. The library
/// takes it as the sign that the pattern is rejected and never looks inside
/// it.
#[verifier::external_type_specification]
#[verifier::external_body]
pub struct ExRegexError(regex::Error);

/// Whether `regex::Regex::new` compiles the pattern.
pub uninterp spec fn pattern_is_valid(pattern: Seq<char>) -> bool;

/// What `Regex::captures` finds for a pattern in a haystack: the capture
/// groups of the leftmost match, group 0 being the whole match, each with the
/// text it captured if it took part in the match; or `None` if nothing
/// matches.
pub uninterp spec fn regex_first_match(pattern: Seq<char>, haystack: Seq<char>) -> Option<
    Seq<Option<Seq<char>>>,
>;

/// What `Regex::captures_iter` finds for a pattern in a haystack: the
/// capture groups of each of the successive matches that do not overlap, in
/// the order of the haystack.
pub uninterp spec fn regex_all_matches(pattern: Seq<char>, haystack: Seq<char>) -> Seq<
    Seq<Option<Seq<char>>>,
>;

/// For each of the successive matches of a pattern in a haystack: the byte
/// offsets at which the match starts and ends, and what `Captures::expand`
/// makes of the template for that match.
pub uninterp spec fn regex_replacements(
    pattern: Seq<char>,
    haystack: Seq<char>,
    template: Seq<char>,
) -> Seq<(usize, usize, Seq<char>)>;

/// `regex::Regex::new` returns a compiled regular expression for the patterns
/// that are valid, and an error for the others.
pub assume_specification[ regex::Regex::new ](re: &str) -> (r: Result<regex::Regex, regex::Error>)
    ensures
        r is Ok <==> pattern_is_valid(re@),
;

/// Calls `Regex::captures` on the haystack, and copies the text of each
/// capture group of the match. The pattern must compile.
#[verifier::external_body]
fn captures(pattern: &str, haystack: &str) -> (r: Option<Vec<Option<String>>>)
    requires
        pattern_is_valid(pattern@),
    ensures
        r.deep_view() == regex_first_match(pattern@, haystack@),
{
    let regex = regex::Regex::new(pattern).unwrap();
    regex.captures(haystack).map(
        |groups| groups.iter().map(|group| group.map(|m| m.as_str().to_owned())).collect(),
    )
}

/// Calls `Regex::captures_iter` on the haystack, and copies the text of each
/// capture group of each match. The pattern must compile.
#[verifier::external_body]
fn captures_iter(pattern: &str, haystack: &str) -> (r: Vec<Vec<Option<String>>>)
    requires
        pattern_is_valid(pattern@),
    ensures
        r.deep_view() == regex_all_matches(pattern@, haystack@),
{
    let regex = regex::Regex::new(pattern).unwrap();
    regex.captures_iter(haystack).map(
        |groups| groups.iter().map(|group| group.map(|m| m.as_str().to_owned())).collect(),
    ).collect()
}

/// Walks the matches that `Regex::captures_iter` finds in the haystack. For
/// each one it takes the offsets of the whole match and lets
/// `Captures::expand` write out the template. The pattern must compile.
#[verifier::external_body]
fn expand_matches(pattern: &str, haystack: &str, template: &str) -> (r: Vec<Replacement>)
    requires
        pattern_is_valid(pattern@),
    ensures
        r.deep_view() == regex_replacements(pattern@, haystack@, template@),
{
    let regex = regex::Regex::new(pattern).unwrap();
    regex.captures_iter(haystack).map(
        |groups| {
            let whole = groups.get_match();
            let mut expansion = String::new();
            groups.expand(template, &mut expansion);
            Replacement { start: whole.start(), end: whole.end(), expansion }
        },
    ).collect()
}

/// A match in a text together with what is to stand in its place.
#[derive(Debug, Clone)]
pub struct Replacement {
    /// Byte offset at which the match starts.
    pub start: usize,
    /// Byte offset at which the match ends.
    pub end: usize,
    /// The replacement template, expanded for this match.
    pub expansion: String,
}

impl DeepView for Replacement {
    type V = (usize, usize, Seq<char>);

    open spec fn deep_view(&self) -> (usize, usize, Seq<char>) {
        (self.start, self.end, self.expansion@)
    }
}

/// A pattern that the regex engine rejected.
#[derive(Debug, Clone)]
pub struct ConfigurationError {
    /// The pattern.
    pub pattern: String,
}

/// The text of a regular expression that compiles.
#[derive(Debug)]
pub struct Pattern {
    source: String,
}

impl View for Pattern {
    type V = Seq<char>;

    closed spec fn view(&self) -> Seq<char> {
        self.source@
    }
}

impl Pattern {
    #[verifier::type_invariant]
    spec fn compiles(&self) -> bool {
        pattern_is_valid(self.source@)
    }

    /// Compiles the pattern, and keeps its text if that succeeds.
    pub fn new(pattern: &str) -> (r: Result<Pattern, ConfigurationError>)
        ensures
            r is Ok <==> pattern_is_valid(pattern@),
            r matches Ok(compiled) ==> compiled@ == pattern@,
            r matches Err(error) ==> error.pattern@ == pattern@,
    {
        match regex::Regex::new(pattern) {
            Ok(_) => Ok(Pattern { source: pattern.to_owned() }),
            Err(_) => Err(ConfigurationError { pattern: pattern.to_owned() }),
        }
    }

    /// The text of the pattern.
    pub fn as_str(&self) -> (source: &str)
        ensures
            source@ == self@,
    {
        self.source.as_str()
    }

    /// The capture groups of the leftmost match in the haystack.
    pub fn first_match(&self, haystack: &str) -> (r: Option<Vec<Option<String>>>)
        ensures
            r.deep_view() == regex_first_match(self@, haystack@),
    {
        proof {
            use_type_invariant(self);
        }
        captures(self.source.as_str(), haystack)
    }

    /// The capture groups of every match in the haystack.
    pub fn all_matches(&self, haystack: &str) -> (r: Vec<Vec<Option<String>>>)
        ensures
            r.deep_view() == regex_all_matches(self@, haystack@),
    {
        proof {
            use_type_invariant(self);
        }
        captures_iter(self.source.as_str(), haystack)
    }

    /// Every match in the haystack, with the template expanded for it.
    pub fn replacements(&self, haystack: &str, template: &str) -> (r: Vec<Replacement>)
        ensures
            r.deep_view() == regex_replacements(self@, haystack@, template@),
    {
        proof {
            use_type_invariant(self);
        }
        expand_matches(self.source.as_str(), haystack, template)
    }
}

} // verus!
