//! Regex-backed pretokenization rules: each rule pairs a compiled pattern
//! with the pattern text it was compiled from and the part-of-speech tag
//! that its matches receive. The regex engine is an outside collaborator;
//! only the calls below are trusted, their results are named so that
//! callers' contracts can be exact, and everything built on them is
//! verified.
//!
//! The rule's fields are private and every rule comes from the one trusted
//! constructor, so a rule's compiled pattern always belongs to its stored
//! pattern text.

use vstd::prelude::*;
use vstd::string::StringSliceAdditionalSpecFns;

verus! {

#[verifier::external_type_specification]
#[verifier::external_body]
pub struct ExRegex(regex::Regex);

#[verifier::external_type_specification]
#[verifier::external_body]
pub struct ExRegexError(regex::Error);

/// Whether the pattern text compiles as a regex. The result of compilation
/// depends on the pattern alone.
pub uninterp spec fn regex_compiles(pattern: Seq<char>) -> bool;

/// The byte offset ranges of the successive non-overlapping matches of the
/// compiled pattern in the haystack, leftmost first. The match set depends
/// on the pattern text and the haystack alone.
pub uninterp spec fn regex_match_ranges(pattern: Seq<char>, haystack: Seq<char>) -> Seq<
    (usize, usize),
>;

/// A regex pretokenization rule: a compiled pattern, the pattern text it
/// was compiled from, and the tag attached to each of its matches.
pub struct ReWordRule {
    pattern: regex::Regex,
    source: String,
    tag: String,
}

impl ReWordRule {
    /// The pattern text the rule was compiled from.
    pub closed spec fn spec_source(self) -> Seq<char> {
        self.source@
    }

    /// The tag attached to each match of the rule.
    pub closed spec fn spec_tag(self) -> Seq<char> {
        self.tag@
    }

    /// Relies on `regex::Regex::new`: compiles exactly the patterns that
    /// `regex_compiles` holds of, returning the error that says why an
    /// invalid pattern was rejected. The rule keeps the pattern text it was
    /// compiled from.
    #[verifier::external_body]
    pub fn new(pattern: &str, tag: &str) -> (r: core::result::Result<ReWordRule, regex::Error>)
        ensures
            r is Ok <==> regex_compiles(pattern@),
            r matches Ok(rule) ==> rule.spec_source() == pattern@ && rule.spec_tag() == tag@,
    {
        match regex::Regex::new(pattern) {
            Ok(compiled) => Ok(ReWordRule {
                pattern: compiled,
                source: pattern.to_owned(),
                tag: tag.to_owned(),
            }),
            Err(error) => Err(error),
        }
    }

    /// Returns the tag attached to each match of the rule.
    pub fn tag(&self) -> (r: &String)
        ensures
            r@ == self.spec_tag(),
    {
        &self.tag
    }

    /// Relies on `regex::Regex::find_iter`: the byte offset ranges of
    /// successive non-overlapping matches of the rule's pattern, leftmost
    /// first — the named match set of the pattern text on this haystack.
    /// Each range lies within the haystack and its end does not precede its
    /// start; later matches start no earlier than where earlier matches
    /// ended.
    #[verifier::external_body]
    pub fn find_ranges(&self, haystack: &str) -> (r: Vec<(usize, usize)>)
        ensures
            r@ == regex_match_ranges(self.spec_source(), haystack@),
            forall|k: int|
                0 <= k < r@.len() ==> (#[trigger] r@[k]).0 <= r@[k].1 && r@[k].1
                    <= haystack.spec_bytes().len(),
            forall|k1: int, k2: int|
                0 <= k1 < k2 < r@.len() ==> (#[trigger] r@[k1]).1 <= (#[trigger] r@[k2]).0,
    {
        self.pattern.find_iter(haystack).map(|m| (m.start(), m.end())).collect()
    }
}

/// Relies on `regex::Error`'s message rendering for diagnostics.
#[verifier::external_body]
pub fn regex_error_message(error: &regex::Error) -> (r: String) {
    format!("{error}")
}

} // verus!
