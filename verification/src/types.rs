//! Public data types of the analysis layer.
//!
//! Offset fields are character indices (`str.chars()` positions), not UTF-8
//! byte offsets. Score-like quantities are carried as raw IEEE-754 bit
//! patterns (`*_bits` fields) so that values compare exactly, in cache keys
//! and elsewhere; the surrounding plumbing converts them at the boundary.

use crate::constants::{
    DEFAULT_DIALECT_COST_BITS, KIWI_DIALECT_STANDARD, KIWI_MATCH_ALL_WITH_NORMALIZING,
};
use crate::error::{KiwiError, Result};
use vstd::prelude::*;
use vstd::string::StringExecFns;

verus! {

/// A user dictionary entry.
#[derive(Debug, Clone)]
pub struct UserWord {
    /// Surface form to add.
    pub word: String,
    /// Part-of-speech tag for the word.
    pub tag: String,
    /// Bit pattern of the user score used by the analyzer during ranking.
    pub score_bits: u32,
}

impl UserWord {
    /// Creates a user dictionary entry.
    pub fn new(word: &str, tag: &str, score_bits: u32) -> (r: Self)
        ensures
            r.word@ == word@,
            r.tag@ == tag@,
            r.score_bits == score_bits,
    {
        UserWord { word: word.to_owned(), tag: tag.to_owned(), score_bits }
    }
}

/// Options for the `analyze*` and `tokenize*` APIs.
#[derive(Debug, Clone, Copy, PartialEq, Eq, Structural)]
pub struct AnalyzeOptions {
    /// Number of candidate analyses to return.
    pub top_n: usize,
    /// Bit flags controlling token matching behavior.
    pub match_options: i32,
    /// Enables open-ended analysis mode.
    pub open_ending: bool,
    /// Allowed dialect bit mask.
    pub allowed_dialects: i32,
    /// Bit pattern of the penalty used when selecting dialectal analyses.
    pub dialect_cost_bits: u32,
}

impl Default for AnalyzeOptions {
    /// The default options: top-1 analysis with normalizing match options
    /// and the standard dialect only.
    fn default() -> (r: Self)
        ensures
            r.top_n == 1,
            r.match_options == KIWI_MATCH_ALL_WITH_NORMALIZING,
            !r.open_ending,
            r.allowed_dialects == KIWI_DIALECT_STANDARD,
            r.dialect_cost_bits == DEFAULT_DIALECT_COST_BITS,
    {
        AnalyzeOptions {
            top_n: 1,
            match_options: KIWI_MATCH_ALL_WITH_NORMALIZING,
            open_ending: false,
            allowed_dialects: KIWI_DIALECT_STANDARD,
            dialect_cost_bits: DEFAULT_DIALECT_COST_BITS,
        }
    }
}

impl AnalyzeOptions {
    /// Sets the number of candidates.
    pub fn with_top_n(self, top_n: usize) -> (r: Self)
        ensures
            r == (AnalyzeOptions { top_n, ..self }),
    {
        AnalyzeOptions { top_n, ..self }
    }

    /// Sets `match_options` bit flags.
    pub fn with_match_options(self, match_options: i32) -> (r: Self)
        ensures
            r == (AnalyzeOptions { match_options, ..self }),
    {
        AnalyzeOptions { match_options, ..self }
    }

    /// Enables or disables open-ending analysis.
    pub fn with_open_ending(self, open_ending: bool) -> (r: Self)
        ensures
            r == (AnalyzeOptions { open_ending, ..self }),
    {
        AnalyzeOptions { open_ending, ..self }
    }

    /// Sets allowed dialect bit flags.
    pub fn with_allowed_dialects(self, allowed_dialects: i32) -> (r: Self)
        ensures
            r == (AnalyzeOptions { allowed_dialects, ..self }),
    {
        AnalyzeOptions { allowed_dialects, ..self }
    }

    /// Sets the bit pattern of the dialect mismatch penalty.
    pub fn with_dialect_cost_bits(self, dialect_cost_bits: u32) -> (r: Self)
        ensures
            r == (AnalyzeOptions { dialect_cost_bits, ..self }),
    {
        AnalyzeOptions { dialect_cost_bits, ..self }
    }

    /// Checks that `top_n` is at least one and fits the native call's signed
    /// 32-bit count, and returns it converted.
    pub fn validated_top_n(&self) -> (r: Result<i32>)
        ensures
            match r {
                Ok(t) => 1 <= self.top_n <= 0x7FFF_FFFF && t == self.top_n,
                Err(e) => (self.top_n == 0 || self.top_n > 0x7FFF_FFFF) && e is InvalidArgument,
            },
    {
        if self.top_n == 0 {
            return Err(
                KiwiError::InvalidArgument(String::from_str("AnalyzeOptions.top_n must be >= 1")),
            );
        }
        if self.top_n > 0x7FFF_FFFF {
            return Err(
                KiwiError::InvalidArgument(
                    String::from_str("AnalyzeOptions.top_n must fit a 32-bit count"),
                ),
            );
        }
        Ok(self.top_n as i32)
    }
}

/// A single morpheme token produced by analysis.
#[derive(Debug)]
pub struct Token {
    /// Surface form.
    pub form: String,
    /// Part-of-speech tag string.
    pub tag: String,
    /// Character-based start offset in the original text.
    pub position: usize,
    /// Character length, not byte length.
    pub length: usize,
    /// Word index inside the analyzed sentence.
    pub word_position: usize,
    /// Sentence index in multi-sentence analysis output.
    pub sent_position: usize,
    /// Line number metadata from the analyzer output.
    pub line_number: usize,
    /// Sub-sentence index metadata from the analyzer output.
    pub sub_sent_position: usize,
    /// Bit pattern of the token's language-model score.
    pub score_bits: u32,
    /// Bit pattern of the typo correction cost for this token.
    pub typo_cost_bits: u32,
    /// Typo form identifier from the analyzer internals.
    pub typo_form_id: u32,
    /// Optional paired-token index (for paired punctuation etc.).
    pub paired_token: Option<usize>,
    /// Optional morpheme id for dictionary-backed APIs.
    pub morpheme_id: Option<u32>,
    /// Optional numeric tag id.
    pub tag_id: Option<u8>,
    /// Optional sense id or script id depending on tag.
    pub sense_or_script: Option<u8>,
    /// Optional dialect id.
    pub dialect: Option<u16>,
}

impl Clone for Token {
    /// Clones the token field by field, preserving its value exactly.
    fn clone(&self) -> (r: Self)
        ensures
            r == *self,
    {
        Token {
            form: self.form.clone(),
            tag: self.tag.clone(),
            position: self.position,
            length: self.length,
            word_position: self.word_position,
            sent_position: self.sent_position,
            line_number: self.line_number,
            sub_sent_position: self.sub_sent_position,
            score_bits: self.score_bits,
            typo_cost_bits: self.typo_cost_bits,
            typo_form_id: self.typo_form_id,
            paired_token: self.paired_token,
            morpheme_id: self.morpheme_id,
            tag_id: self.tag_id,
            sense_or_script: self.sense_or_script,
            dialect: self.dialect,
        }
    }
}

/// Clones a token vector, preserving each element exactly.
pub fn clone_tokens(tokens: &Vec<Token>) -> (r: Vec<Token>)
    ensures
        r@ == tokens@,
{
    let mut out: Vec<Token> = Vec::new();
    let mut i: usize = 0;
    while i < tokens.len()
        invariant
            i <= tokens@.len(),
            out@ == tokens@.take(i as int),
        decreases tokens@.len() - i,
    {
        out.push(tokens[i].clone());
        i = i + 1;
    }
    proof {
        assert(tokens@.take(tokens@.len() as int) =~= tokens@);
    }
    out
}

/// One analysis candidate, including its probability and token list.
#[derive(Debug)]
pub struct AnalysisCandidate {
    /// Bit pattern of the candidate probability score.
    pub probability_bits: u32,
    /// Token sequence for this candidate.
    pub tokens: Vec<Token>,
}

/// The mathematical value of a candidate: its probability bit pattern and
/// its token sequence.
pub open spec fn cand_view(c: AnalysisCandidate) -> (u32, Seq<Token>) {
    (c.probability_bits, c.tokens@)
}

/// The mathematical value of a candidate sequence, element by element.
pub open spec fn cands_view(s: Seq<AnalysisCandidate>) -> Seq<(u32, Seq<Token>)> {
    s.map(|i: int, c: AnalysisCandidate| cand_view(c))
}

impl Clone for AnalysisCandidate {
    /// Clones the candidate, preserving its value exactly.
    fn clone(&self) -> (r: Self)
        ensures
            cand_view(r) == cand_view(*self),
    {
        AnalysisCandidate {
            probability_bits: self.probability_bits,
            tokens: clone_tokens(&self.tokens),
        }
    }
}

/// Clones a candidate vector, preserving each element's value exactly.
pub fn clone_candidates(candidates: &Vec<AnalysisCandidate>) -> (r: Vec<AnalysisCandidate>)
    ensures
        cands_view(r@) == cands_view(candidates@),
{
    let mut out: Vec<AnalysisCandidate> = Vec::new();
    let mut i: usize = 0;
    while i < candidates.len()
        invariant
            i <= candidates@.len(),
            out@.len() == i,
            forall|j: int| 0 <= j < i ==> cand_view(#[trigger] out@[j]) == cand_view(
                candidates@[j],
            ),
        decreases candidates@.len() - i,
    {
        out.push(candidates[i].clone());
        i = i + 1;
    }
    proof {
        assert forall|j: int| 0 <= j < out@.len() implies cands_view(out@)[j] == cands_view(
            candidates@,
        )[j] by {
            assert(cand_view(out@[j]) == cand_view(candidates@[j]));
        }
        assert(cands_view(out@) =~= cands_view(candidates@));
    }
    out
}

/// Alias kept for readability in user code.
pub type Analysis = AnalysisCandidate;

/// Sentence split result with character-offset span and optional payloads.
#[derive(Debug)]
pub struct Sentence {
    /// Raw sentence text slice (owned).
    pub text: String,
    /// Character-based start offset.
    pub start: usize,
    /// Character-based end offset.
    pub end: usize,
    /// Tokens in this sentence when requested.
    pub tokens: Option<Vec<Token>>,
    /// Nested sub-sentences when requested.
    pub subs: Option<Vec<Sentence>>,
}

/// Pre-analyzed token element for builder-time user dictionaries.
///
/// `begin`/`end` are character offsets in the given surface form.
#[derive(Debug, Clone)]
pub struct PreAnalyzedToken {
    /// Surface form.
    pub form: String,
    /// Part-of-speech tag.
    pub tag: String,
    /// Optional begin character offset.
    pub begin: Option<usize>,
    /// Optional end character offset.
    pub end: Option<usize>,
}

impl PreAnalyzedToken {
    /// Creates a token with only `form` and `tag`.
    pub fn new(form: &str, tag: &str) -> (r: Self)
        ensures
            r.form@ == form@,
            r.tag@ == tag@,
            r.begin is None,
            r.end is None,
    {
        PreAnalyzedToken { form: form.to_owned(), tag: tag.to_owned(), begin: None, end: None }
    }

    /// Sets explicit span offsets.
    pub fn with_span(self, begin: usize, end: usize) -> (r: Self)
        ensures
            r == (PreAnalyzedToken { begin: Some(begin), end: Some(end), ..self }),
    {
        PreAnalyzedToken { begin: Some(begin), end: Some(end), ..self }
    }
}

/// Begin/end boundary for a sentence in character offsets.
#[derive(Debug, Clone, Copy, PartialEq, Eq, Structural)]
pub struct SentenceBoundary {
    /// Inclusive begin offset.
    pub begin: usize,
    /// Exclusive end offset.
    pub end: usize,
}

/// Morpheme information with resolved string fields.
#[derive(Debug, Clone)]
pub struct MorphemeSense {
    /// Morpheme id.
    pub morph_id: u32,
    /// Morpheme form.
    pub form: String,
    /// Morpheme tag.
    pub tag: String,
    /// Sense id.
    pub sense_id: u8,
    /// Dialect id.
    pub dialect: u16,
}

} // verus!
