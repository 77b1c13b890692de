//! The analyzer-side state that this crate owns: six bounded recency caches
//! keyed by options, fingerprints and exact text, the invalidation rules
//! that keep them coherent across configuration changes, the regex
//! pretokenization rules, and the chunk glue engine's decision logic.

use crate::cache::{model_find, model_insert, model_promote};
use crate::chars::{spec_ends_with_ascii_word, str_eq};
use crate::fingerprint::{spec_fingerprint, spec_glue_fingerprint, TextFingerprint};
use crate::glue::{spec_glued_text, strings_view};
use crate::rewords::{regex_match_ranges, ReWordRule};
use crate::types::{
    cands_view, clone_candidates, clone_tokens, AnalysisCandidate, AnalyzeOptions,
    SentenceBoundary, Token,
};
use std::collections::VecDeque;
use vstd::prelude::*;

verus! {

/// Capacity of the join-result cache.
pub const JOIN_CACHE_CAPACITY: usize = 16;

/// Capacity of the tokenize-result cache.
pub const TOKENIZE_CACHE_CAPACITY: usize = 256;

/// Capacity of the analyze-result cache.
pub const ANALYZE_CACHE_CAPACITY: usize = 128;

/// Capacity of the sentence-split cache.
pub const SPLIT_CACHE_CAPACITY: usize = 64;

/// Capacity of the glue-result cache.
pub const GLUE_CACHE_CAPACITY: usize = 64;

/// Capacity of the glue pair-decision cache.
pub const GLUE_PAIR_CACHE_CAPACITY: usize = 256;

/// The options that distinguish tokenize-cache entries: everything except
/// `top_n`, which tokenization fixes at one.
#[derive(Debug, Clone, Copy, PartialEq, Eq, Structural)]
pub struct TokenizeCacheKey {
    /// Match option bit flags.
    pub match_options: i32,
    /// Open-ended analysis mode.
    pub open_ending: bool,
    /// Allowed dialect bit mask.
    pub allowed_dialects: i32,
    /// Bit pattern of the dialect cost.
    pub dialect_cost_bits: u32,
}

impl TokenizeCacheKey {
    /// Extracts the cache-relevant fields from the analysis options.
    pub fn from_options(options: AnalyzeOptions) -> (r: Self)
        ensures
            r == (TokenizeCacheKey {
                match_options: options.match_options,
                open_ending: options.open_ending,
                allowed_dialects: options.allowed_dialects,
                dialect_cost_bits: options.dialect_cost_bits,
            }),
    {
        TokenizeCacheKey {
            match_options: options.match_options,
            open_ending: options.open_ending,
            allowed_dialects: options.allowed_dialects,
            dialect_cost_bits: options.dialect_cost_bits,
        }
    }
}

/// The options that distinguish analyze-cache entries, `top_n` included.
#[derive(Debug, Clone, Copy, PartialEq, Eq, Structural)]
pub struct AnalyzeCacheKey {
    /// Number of candidates requested.
    pub top_n: usize,
    /// Match option bit flags.
    pub match_options: i32,
    /// Open-ended analysis mode.
    pub open_ending: bool,
    /// Allowed dialect bit mask.
    pub allowed_dialects: i32,
    /// Bit pattern of the dialect cost.
    pub dialect_cost_bits: u32,
}

impl AnalyzeCacheKey {
    /// Extracts the cache-relevant fields from the analysis options.
    pub fn from_options(options: AnalyzeOptions) -> (r: Self)
        ensures
            r == (AnalyzeCacheKey {
                top_n: options.top_n,
                match_options: options.match_options,
                open_ending: options.open_ending,
                allowed_dialects: options.allowed_dialects,
                dialect_cost_bits: options.dialect_cost_bits,
            }),
    {
        AnalyzeCacheKey {
            top_n: options.top_n,
            match_options: options.match_options,
            open_ending: options.open_ending,
            allowed_dialects: options.allowed_dialects,
            dialect_cost_bits: options.dialect_cost_bits,
        }
    }
}

/// One tokenize-cache entry: the options key, the text fingerprint
/// pre-filter, the exact text, and the cached token list.
pub struct TokenizeCacheEntry {
    /// Options the tokens were computed under.
    pub key: TokenizeCacheKey,
    /// Fingerprint of `text`.
    pub fingerprint: TextFingerprint,
    /// The exact analyzed text.
    pub text: String,
    /// The cached result.
    pub tokens: Vec<Token>,
}

impl TokenizeCacheEntry {
    /// The lookup key of this entry.
    pub open spec fn skey(self) -> (TokenizeCacheKey, Seq<char>) {
        (self.key, self.text@)
    }

    /// The cached value of this entry.
    pub open spec fn sval(self) -> Seq<Token> {
        self.tokens@
    }

    /// The stored fingerprint is the fingerprint of the stored text.
    pub open spec fn wf(self) -> bool {
        self.fingerprint == spec_fingerprint(self.text@)
    }

    /// Compares this entry against a lookup key, using the fingerprint as a
    /// cheap pre-filter before the full text comparison.
    pub fn matches(&self, text: &str, key: TokenizeCacheKey, fingerprint: TextFingerprint) -> (r:
        bool)
        requires
            self.wf(),
            fingerprint == spec_fingerprint(text@),
        ensures
            r == (self.skey() == (key, text@)),
    {
        self.key == key && self.fingerprint == fingerprint && str_eq(self.text.as_str(), text)
    }
}

/// One analyze-cache entry: the options key, the text fingerprint, the
/// exact text, and the cached candidate list.
pub struct AnalyzeCacheEntry {
    /// Options the candidates were computed under.
    pub key: AnalyzeCacheKey,
    /// Fingerprint of `text`.
    pub fingerprint: TextFingerprint,
    /// The exact analyzed text.
    pub text: String,
    /// The cached result.
    pub candidates: Vec<AnalysisCandidate>,
}

impl AnalyzeCacheEntry {
    /// The lookup key of this entry.
    pub open spec fn skey(self) -> (AnalyzeCacheKey, Seq<char>) {
        (self.key, self.text@)
    }

    /// The cached value of this entry.
    pub open spec fn sval(self) -> Seq<(u32, Seq<Token>)> {
        cands_view(self.candidates@)
    }

    /// The stored fingerprint is the fingerprint of the stored text.
    pub open spec fn wf(self) -> bool {
        self.fingerprint == spec_fingerprint(self.text@)
    }

    /// Compares this entry against a lookup key, using the fingerprint as a
    /// cheap pre-filter before the full text comparison.
    pub fn matches(&self, text: &str, key: AnalyzeCacheKey, fingerprint: TextFingerprint) -> (r:
        bool)
        requires
            self.wf(),
            fingerprint == spec_fingerprint(text@),
        ensures
            r == (self.skey() == (key, text@)),
    {
        self.key == key && self.fingerprint == fingerprint && str_eq(self.text.as_str(), text)
    }
}

/// One sentence-split cache entry: the match options, the text fingerprint,
/// the exact text, and the cached boundary list.
pub struct SplitCacheEntry {
    /// Match options the boundaries were computed under.
    pub match_options: i32,
    /// Fingerprint of `text`.
    pub fingerprint: TextFingerprint,
    /// The exact analyzed text.
    pub text: String,
    /// The cached result.
    pub boundaries: Vec<SentenceBoundary>,
}

impl SplitCacheEntry {
    /// The lookup key of this entry.
    pub open spec fn skey(self) -> (i32, Seq<char>) {
        (self.match_options, self.text@)
    }

    /// The cached value of this entry.
    pub open spec fn sval(self) -> Seq<SentenceBoundary> {
        self.boundaries@
    }

    /// The stored fingerprint is the fingerprint of the stored text.
    pub open spec fn wf(self) -> bool {
        self.fingerprint == spec_fingerprint(self.text@)
    }

    /// Compares this entry against a lookup key, using the fingerprint as a
    /// cheap pre-filter before the full text comparison.
    pub fn matches(&self, text: &str, match_options: i32, fingerprint: TextFingerprint) -> (r:
        bool)
        requires
            self.wf(),
            fingerprint == spec_fingerprint(text@),
        ensures
            r == (self.skey() == (match_options, text@)),
    {
        self.match_options == match_options && self.fingerprint == fingerprint && str_eq(
            self.text.as_str(),
            text,
        )
    }
}

/// The spec view of an optional newline-flag vector.
pub open spec fn newlines_view(v: Option<Vec<bool>>) -> Option<Seq<bool>> {
    match v {
        Some(f) => Some(f@),
        None => None,
    }
}

/// One glue-cache entry: the whole chunk sequence with its newline flags,
/// a structural fingerprint, and the cached glued text plus per-boundary
/// decisions.
pub struct GlueCacheEntry {
    /// Structural fingerprint of the chunk sequence and newline flags.
    pub fingerprint: u64,
    /// The exact (trimmed) chunks.
    pub chunks: Vec<String>,
    /// The newline-flag vector of the request, if any.
    pub insert_new_lines: Option<Vec<bool>>,
    /// The cached glued text.
    pub glued_text: String,
    /// The cached per-boundary separator decisions.
    pub space_insertions: Vec<bool>,
}

impl GlueCacheEntry {
    /// The lookup key of this entry.
    pub open spec fn skey(self) -> (Seq<Seq<char>>, Option<Seq<bool>>) {
        (strings_view(self.chunks@), newlines_view(self.insert_new_lines))
    }

    /// The cached value of this entry.
    pub open spec fn sval(self) -> (Seq<char>, Seq<bool>) {
        (self.glued_text@, self.space_insertions@)
    }

    /// The fingerprint matches the key, the stored text is the assembly of
    /// the stored chunks under the stored decisions, and every boundary
    /// whose left chunk ends in an ASCII letter or digit has a separator.
    pub open spec fn wf(self) -> bool {
        &&& self.fingerprint == spec_glue_fingerprint(
            strings_view(self.chunks@),
            newlines_view(self.insert_new_lines),
        )
        &&& self.chunks@.len() >= 1
        &&& self.space_insertions@.len() == self.chunks@.len() - 1
        &&& (match self.insert_new_lines {
            Some(f) => f@.len() == self.chunks@.len() - 1,
            None => true,
        })
        &&& self.glued_text@ == spec_glued_text(
            strings_view(self.chunks@),
            self.space_insertions@,
            newlines_view(self.insert_new_lines),
        )
        &&& forall|i: int|
            0 <= i < self.space_insertions@.len() && spec_ends_with_ascii_word(
                #[trigger] strings_view(self.chunks@)[i],
            ) ==> self.space_insertions@[i]
    }

    /// Compares this entry against a lookup key, using the fingerprint as a
    /// cheap pre-filter before the full comparison.
    pub fn matches(
        &self,
        chunks: &[&str],
        insert_new_lines: Option<&[bool]>,
        fingerprint: u64,
    ) -> (r: bool)
        requires
            self.wf(),
            fingerprint == spec_glue_fingerprint(
                crate::fingerprint::chunks_view(chunks@),
                match insert_new_lines {
                    Some(f) => Some(f@),
                    None => None,
                },
            ),
        ensures
            r == (self.skey() == (
                crate::fingerprint::chunks_view(chunks@),
                match insert_new_lines {
                    Some(f) => Some(f@),
                    None => None,
                },
            )),
    {
        if self.fingerprint != fingerprint {
            proof {
                assert(self.skey() != (
                    crate::fingerprint::chunks_view(chunks@),
                    match insert_new_lines {
                        Some(f) => Some(f@),
                        None => None,
                    },
                ));
            }
            return false;
        }
        let chunks_equal = string_slices_eq(&self.chunks, chunks);
        if !chunks_equal {
            return false;
        }
        match (&self.insert_new_lines, insert_new_lines) {
            (Some(stored), Some(given)) => bools_eq(stored, given),
            (None, None) => true,
            _ => false,
        }
    }
}

/// One glue pair-decision entry: the exact left and right chunks and the
/// cached separator decision.
pub struct GluePairScoreCacheEntry {
    /// Left chunk of the pair.
    pub left: String,
    /// Right chunk of the pair.
    pub right: String,
    /// Whether a separator is inserted between them.
    pub insert_space: bool,
}

impl GluePairScoreCacheEntry {
    /// The lookup key of this entry.
    pub open spec fn skey(self) -> (Seq<char>, Seq<char>) {
        (self.left@, self.right@)
    }

    /// The cached value of this entry.
    pub open spec fn sval(self) -> bool {
        self.insert_space
    }

    /// A left chunk that ends in an ASCII letter or digit always has a
    /// separator: the deterministic override is never cached away.
    pub open spec fn wf(self) -> bool {
        spec_ends_with_ascii_word(self.left@) ==> self.insert_space
    }

    /// Compares this entry against a chunk pair.
    pub fn matches(&self, left: &str, right: &str) -> (r: bool)
        ensures
            r == (self.skey() == (left@, right@)),
    {
        str_eq(self.left.as_str(), left) && str_eq(self.right.as_str(), right)
    }
}

/// The spec view of a morph sequence given as string pairs.
pub open spec fn morphs_view(morphs: Seq<(&str, &str)>) -> Seq<(Seq<char>, Seq<char>)> {
    morphs.map_values(|p: (&str, &str)| (p.0@, p.1@))
}

/// The spec view of an owned morph sequence.
pub open spec fn owned_morphs_view(morphs: Seq<(String, String)>) -> Seq<(Seq<char>, Seq<char>)> {
    morphs.map_values(|p: (String, String)| (p.0@, p.1@))
}

/// One join-cache entry: the language-model-search flag, the exact morph
/// sequence, and the cached rendered text.
pub struct JoinCacheEntry {
    /// Whether language-model search was enabled for the render.
    pub lm_search: bool,
    /// The exact `(form, tag)` sequence.
    pub morphs: Vec<(String, String)>,
    /// The cached rendered text.
    pub output: String,
}

impl JoinCacheEntry {
    /// The lookup key of this entry.
    pub open spec fn skey(self) -> (bool, Seq<(Seq<char>, Seq<char>)>) {
        (self.lm_search, owned_morphs_view(self.morphs@))
    }

    /// The cached value of this entry.
    pub open spec fn sval(self) -> Seq<char> {
        self.output@
    }

    /// Compares this entry against a morph sequence and search flag.
    pub fn matches(&self, morphs: &[(&str, &str)], lm_search: bool) -> (r: bool)
        ensures
            r == (self.skey() == (lm_search, morphs_view(morphs@))),
    {
        if self.lm_search != lm_search || self.morphs.len() != morphs.len() {
            proof {
                if self.morphs@.len() != morphs@.len() {
                    assert(owned_morphs_view(self.morphs@).len() != morphs_view(morphs@).len());
                }
            }
            return false;
        }
        let n = morphs.len();
        let mut i: usize = 0;
        while i < n
            invariant
                i <= n,
                n == morphs@.len(),
                n == self.morphs@.len(),
                forall|j: int|
                    0 <= j < i ==> #[trigger] owned_morphs_view(self.morphs@)[j] == morphs_view(
                        morphs@,
                    )[j],
            decreases n - i,
        {
            let (form, tag) = morphs[i];
            if !str_eq(self.morphs[i].0.as_str(), form) || !str_eq(self.morphs[i].1.as_str(), tag) {
                proof {
                    assert(owned_morphs_view(self.morphs@)[i as int] != morphs_view(
                        morphs@,
                    )[i as int]);
                }
                return false;
            }
            i = i + 1;
        }
        proof {
            assert(owned_morphs_view(self.morphs@) =~= morphs_view(morphs@));
        }
        true
    }
}

/// Compares owned chunks against borrowed chunks by character content.
fn string_slices_eq(a: &Vec<String>, b: &[&str]) -> (r: bool)
    ensures
        r == (strings_view(a@) == crate::fingerprint::chunks_view(b@)),
{
    let n = a.len();
    if n != b.len() {
        proof {
            assert(strings_view(a@).len() != crate::fingerprint::chunks_view(b@).len());
        }
        return false;
    }
    let mut i: usize = 0;
    while i < n
        invariant
            i <= n,
            n == a@.len(),
            n == b@.len(),
            forall|j: int|
                0 <= j < i ==> #[trigger] strings_view(a@)[j] == crate::fingerprint::chunks_view(
                    b@,
                )[j],
        decreases n - i,
    {
        if !str_eq(a[i].as_str(), b[i]) {
            proof {
                assert(strings_view(a@)[i as int] != crate::fingerprint::chunks_view(
                    b@,
                )[i as int]);
            }
            return false;
        }
        i = i + 1;
    }
    proof {
        assert(strings_view(a@) =~= crate::fingerprint::chunks_view(b@));
    }
    true
}

/// Compares an owned flag vector against a borrowed flag slice.
fn bools_eq(a: &Vec<bool>, b: &[bool]) -> (r: bool)
    ensures
        r == (a@ == b@),
{
    let n = a.len();
    if n != b.len() {
        return false;
    }
    let mut i: usize = 0;
    while i < n
        invariant
            i <= n,
            n == a@.len(),
            n == b@.len(),
            forall|j: int| 0 <= j < i ==> a@[j] == b@[j],
        decreases n - i,
    {
        if a[i] != b[i] {
            return false;
        }
        i = i + 1;
    }
    proof {
        assert(a@ =~= b@);
    }
    true
}

/// Copies a flag slice into an owned vector.
fn copy_bools(b: &[bool]) -> (r: Vec<bool>)
    ensures
        r@ == b@,
{
    let n = b.len();
    let mut out: Vec<bool> = Vec::new();
    let mut i: usize = 0;
    while i < n
        invariant
            i <= n,
            n == b@.len(),
            out@ == b@.take(i as int),
        decreases n - i,
    {
        out.push(b[i]);
        i = i + 1;
    }
    proof {
        assert(b@.take(n as int) =~= b@);
    }
    out
}

/// Copies a boundary vector.
fn copy_boundaries(b: &Vec<SentenceBoundary>) -> (r: Vec<SentenceBoundary>)
    ensures
        r@ == b@,
{
    let n = b.len();
    let mut out: Vec<SentenceBoundary> = Vec::new();
    let mut i: usize = 0;
    while i < n
        invariant
            i <= n,
            n == b@.len(),
            out@ == b@.take(i as int),
        decreases n - i,
    {
        out.push(b[i]);
        i = i + 1;
    }
    proof {
        assert(b@.take(n as int) =~= b@);
    }
    out
}

/// Copies an owned chunk vector, preserving each chunk's value.
fn copy_strings(v: &Vec<String>) -> (r: Vec<String>)
    ensures
        r@ == v@,
{
    let n = v.len();
    let mut out: Vec<String> = Vec::new();
    let mut i: usize = 0;
    while i < n
        invariant
            i <= n,
            n == v@.len(),
            out@ == v@.take(i as int),
        decreases n - i,
    {
        out.push(v[i].clone());
        proof {
            assert(out@ =~= v@.take(i as int + 1));
        }
        i = i + 1;
    }
    proof {
        assert(v@.take(n as int) =~= v@);
    }
    out
}

/// Converts a borrowed morph sequence into an owned one.
fn morphs_to_owned(morphs: &[(&str, &str)]) -> (r: Vec<(String, String)>)
    ensures
        owned_morphs_view(r@) == morphs_view(morphs@),
{
    let n = morphs.len();
    let mut out: Vec<(String, String)> = Vec::new();
    let mut i: usize = 0;
    while i < n
        invariant
            i <= n,
            n == morphs@.len(),
            out@.len() == i,
            forall|j: int|
                0 <= j < i ==> #[trigger] owned_morphs_view(out@)[j] == morphs_view(morphs@)[j],
        decreases n - i,
    {
        let (form, tag) = morphs[i];
        let ghost prev = out@;
        out.push((form.to_owned(), tag.to_owned()));
        proof {
            assert forall|j: int| 0 <= j < i + 1 implies #[trigger] owned_morphs_view(out@)[j]
                == morphs_view(morphs@)[j] by {
                if j < i {
                    assert(out@[j] == prev[j]);
                    assert(owned_morphs_view(prev)[j] == morphs_view(morphs@)[j]);
                } else {
                    assert(out@[j].0@ == morphs@[j].0@ && out@[j].1@ == morphs@[j].1@);
                }
            }
        }
        i = i + 1;
    }
    proof {
        assert(owned_morphs_view(out@) =~= morphs_view(morphs@));
    }
    out
}

/// The spec-level key/value pairs of the tokenize cache.
pub open spec fn tokenize_kv(entries: Seq<TokenizeCacheEntry>) -> Seq<
    ((TokenizeCacheKey, Seq<char>), Seq<Token>),
> {
    entries.map_values(|e: TokenizeCacheEntry| (e.skey(), e.sval()))
}

/// The spec-level key/value pairs of the analyze cache.
pub open spec fn analyze_kv(entries: Seq<AnalyzeCacheEntry>) -> Seq<
    ((AnalyzeCacheKey, Seq<char>), Seq<(u32, Seq<Token>)>),
> {
    entries.map_values(|e: AnalyzeCacheEntry| (e.skey(), e.sval()))
}

/// The spec-level key/value pairs of the split cache.
pub open spec fn split_kv(entries: Seq<SplitCacheEntry>) -> Seq<
    ((i32, Seq<char>), Seq<SentenceBoundary>),
> {
    entries.map_values(|e: SplitCacheEntry| (e.skey(), e.sval()))
}

/// The spec-level key/value pairs of the glue cache.
pub open spec fn glue_kv(entries: Seq<GlueCacheEntry>) -> Seq<
    ((Seq<Seq<char>>, Option<Seq<bool>>), (Seq<char>, Seq<bool>)),
> {
    entries.map_values(|e: GlueCacheEntry| (e.skey(), e.sval()))
}

/// The spec-level key/value pairs of the glue pair cache.
pub open spec fn glue_pair_kv(entries: Seq<GluePairScoreCacheEntry>) -> Seq<
    ((Seq<char>, Seq<char>), bool),
> {
    entries.map_values(|e: GluePairScoreCacheEntry| (e.skey(), e.sval()))
}

/// The spec-level key/value pairs of a join-entry sequence, in the given
/// order.
pub open spec fn join_kv_plain(entries: Seq<JoinCacheEntry>) -> Seq<
    ((bool, Seq<(Seq<char>, Seq<char>)>), Seq<char>),
> {
    entries.map_values(|e: JoinCacheEntry| (e.skey(), e.sval()))
}

/// The spec-level key/value pairs of the join cache, most recent first.
/// The join cache keeps its most recent entry at the back, so its model is
/// the reverse of the stored order.
pub open spec fn join_kv(entries: Seq<JoinCacheEntry>) -> Seq<
    ((bool, Seq<(Seq<char>, Seq<char>)>), Seq<char>),
> {
    join_kv_plain(entries.reverse())
}

/// Reversal sends a back insertion to the front.
proof fn lemma_reverse_push<A>(s: Seq<A>, x: A)
    ensures
        s.push(x).reverse() == seq![x] + s.reverse(),
{
    assert(s.push(x).reverse() =~= seq![x] + s.reverse());
}

/// Reversal carries a removal to the mirrored position.
proof fn lemma_reverse_remove<A>(s: Seq<A>, idx: int)
    requires
        0 <= idx < s.len(),
    ensures
        s.remove(idx).reverse() == s.reverse().remove(s.len() - 1 - idx),
{
    assert(s.remove(idx).reverse() =~= s.reverse().remove(s.len() - 1 - idx));
}

/// Reversal sends a front removal to the back.
proof fn lemma_reverse_drop_first<A>(s: Seq<A>)
    requires
        s.len() > 0,
    ensures
        s.subrange(1, s.len() as int).reverse() == s.reverse().drop_last(),
{
    assert(s.subrange(1, s.len() as int).reverse() =~= s.reverse().drop_last());
}


/// When the first `i` entries miss and entry `i` matches, the model lookup
/// returns entry `i`'s value.
proof fn lemma_tokenize_find_at(entries: Seq<TokenizeCacheEntry>, key: (TokenizeCacheKey, Seq<char>), i: int)
    requires
        0 <= i < entries.len(),
        entries[i].skey() == key,
        forall|j: int| 0 <= j < i ==> (#[trigger] entries[j]).skey() != key,
    ensures
        model_find(tokenize_kv(entries), key) == Some(entries[i].sval()),
    decreases i,
{
    let kv = tokenize_kv(entries);
    if i == 0 {
        assert(kv[0] == (entries[0].skey(), entries[0].sval()));
    } else {
        let rest = entries.drop_first();
        assert forall|j: int| 0 <= j < i - 1 implies (#[trigger] rest[j]).skey() != key by {
            assert(rest[j] == entries[j + 1]);
        }
        assert(rest[i - 1] == entries[i]);
        lemma_tokenize_find_at(rest, key, i - 1);
        assert(kv[0] == (entries[0].skey(), entries[0].sval()));
        assert(kv.drop_first() =~= tokenize_kv(rest));
    }
}

/// When no entry matches, the model lookup misses.
proof fn lemma_tokenize_find_none(entries: Seq<TokenizeCacheEntry>, key: (TokenizeCacheKey, Seq<char>))
    requires
        forall|j: int| 0 <= j < entries.len() ==> (#[trigger] entries[j]).skey() != key,
    ensures
        model_find(tokenize_kv(entries), key) is None,
    decreases entries.len(),
{
    if entries.len() > 0 {
        let rest = entries.drop_first();
        assert forall|j: int| 0 <= j < rest.len() implies (#[trigger] rest[j]).skey() != key by {
            assert(rest[j] == entries[j + 1]);
        }
        lemma_tokenize_find_none(rest, key);
        assert(tokenize_kv(entries)[0] == (entries[0].skey(), entries[0].sval()));
        assert(tokenize_kv(entries).drop_first() =~= tokenize_kv(rest));
    }
}

/// Removing the first matching entry agrees with the model removal.
proof fn lemma_tokenize_remove(
    entries: Seq<TokenizeCacheEntry>,
    removed: Seq<TokenizeCacheEntry>,
    key: (TokenizeCacheKey, Seq<char>),
    i: int,
)
    requires
        0 <= i < entries.len(),
        entries[i].skey() == key,
        forall|j: int| 0 <= j < i ==> (#[trigger] entries[j]).skey() != key,
        removed == entries.remove(i),
    ensures
        tokenize_kv(removed) == crate::cache::model_remove(tokenize_kv(entries), key),
    decreases i,
{
    let kv = tokenize_kv(entries);
    if i == 0 {
        assert(kv[0] == (entries[0].skey(), entries[0].sval()));
        assert(tokenize_kv(removed) =~= kv.drop_first());
        assert(removed =~= entries.drop_first());
        assert(tokenize_kv(entries.drop_first()) =~= kv.drop_first());
    } else {
        let rest = entries.drop_first();
        assert forall|j: int| 0 <= j < i - 1 implies (#[trigger] rest[j]).skey() != key by {
            assert(rest[j] == entries[j + 1]);
        }
        assert(rest[i - 1] == entries[i]);
        lemma_tokenize_remove(rest, rest.remove(i - 1), key, i - 1);
        assert(kv[0] == (entries[0].skey(), entries[0].sval()));
        assert(kv.drop_first() =~= tokenize_kv(rest));
        assert(removed =~= seq![entries[0]] + rest.remove(i - 1));
        assert(tokenize_kv(removed) =~= seq![kv[0]] + tokenize_kv(rest.remove(i - 1)));
    }
}

/// Moving the matching entry to the front agrees with the model promotion.
proof fn lemma_tokenize_promote(
    entries: Seq<TokenizeCacheEntry>,
    promoted: Seq<TokenizeCacheEntry>,
    key: (TokenizeCacheKey, Seq<char>),
    i: int,
)
    requires
        0 <= i < entries.len(),
        entries[i].skey() == key,
        forall|j: int| 0 <= j < i ==> (#[trigger] entries[j]).skey() != key,
        promoted == seq![entries[i]] + entries.remove(i),
    ensures
        tokenize_kv(promoted) == model_promote(tokenize_kv(entries), key),
{
    lemma_tokenize_find_at(entries, key, i);
    lemma_tokenize_remove(entries, entries.remove(i), key, i);
    assert(tokenize_kv(promoted) =~= seq![(key, entries[i].sval())] + tokenize_kv(
        entries.remove(i),
    ));
}


/// When the first `i` entries miss and entry `i` matches, the model lookup
/// returns entry `i`'s value.
proof fn lemma_analyze_find_at(entries: Seq<AnalyzeCacheEntry>, key: (AnalyzeCacheKey, Seq<char>), i: int)
    requires
        0 <= i < entries.len(),
        entries[i].skey() == key,
        forall|j: int| 0 <= j < i ==> (#[trigger] entries[j]).skey() != key,
    ensures
        model_find(analyze_kv(entries), key) == Some(entries[i].sval()),
    decreases i,
{
    let kv = analyze_kv(entries);
    if i == 0 {
        assert(kv[0] == (entries[0].skey(), entries[0].sval()));
    } else {
        let rest = entries.drop_first();
        assert forall|j: int| 0 <= j < i - 1 implies (#[trigger] rest[j]).skey() != key by {
            assert(rest[j] == entries[j + 1]);
        }
        assert(rest[i - 1] == entries[i]);
        lemma_analyze_find_at(rest, key, i - 1);
        assert(kv[0] == (entries[0].skey(), entries[0].sval()));
        assert(kv.drop_first() =~= analyze_kv(rest));
    }
}

/// When no entry matches, the model lookup misses.
proof fn lemma_analyze_find_none(entries: Seq<AnalyzeCacheEntry>, key: (AnalyzeCacheKey, Seq<char>))
    requires
        forall|j: int| 0 <= j < entries.len() ==> (#[trigger] entries[j]).skey() != key,
    ensures
        model_find(analyze_kv(entries), key) is None,
    decreases entries.len(),
{
    if entries.len() > 0 {
        let rest = entries.drop_first();
        assert forall|j: int| 0 <= j < rest.len() implies (#[trigger] rest[j]).skey() != key by {
            assert(rest[j] == entries[j + 1]);
        }
        lemma_analyze_find_none(rest, key);
        assert(analyze_kv(entries)[0] == (entries[0].skey(), entries[0].sval()));
        assert(analyze_kv(entries).drop_first() =~= analyze_kv(rest));
    }
}

/// Removing the first matching entry agrees with the model removal.
proof fn lemma_analyze_remove(
    entries: Seq<AnalyzeCacheEntry>,
    removed: Seq<AnalyzeCacheEntry>,
    key: (AnalyzeCacheKey, Seq<char>),
    i: int,
)
    requires
        0 <= i < entries.len(),
        entries[i].skey() == key,
        forall|j: int| 0 <= j < i ==> (#[trigger] entries[j]).skey() != key,
        removed == entries.remove(i),
    ensures
        analyze_kv(removed) == crate::cache::model_remove(analyze_kv(entries), key),
    decreases i,
{
    let kv = analyze_kv(entries);
    if i == 0 {
        assert(kv[0] == (entries[0].skey(), entries[0].sval()));
        assert(analyze_kv(removed) =~= kv.drop_first());
        assert(removed =~= entries.drop_first());
        assert(analyze_kv(entries.drop_first()) =~= kv.drop_first());
    } else {
        let rest = entries.drop_first();
        assert forall|j: int| 0 <= j < i - 1 implies (#[trigger] rest[j]).skey() != key by {
            assert(rest[j] == entries[j + 1]);
        }
        assert(rest[i - 1] == entries[i]);
        lemma_analyze_remove(rest, rest.remove(i - 1), key, i - 1);
        assert(kv[0] == (entries[0].skey(), entries[0].sval()));
        assert(kv.drop_first() =~= analyze_kv(rest));
        assert(removed =~= seq![entries[0]] + rest.remove(i - 1));
        assert(analyze_kv(removed) =~= seq![kv[0]] + analyze_kv(rest.remove(i - 1)));
    }
}

/// Moving the matching entry to the front agrees with the model promotion.
proof fn lemma_analyze_promote(
    entries: Seq<AnalyzeCacheEntry>,
    promoted: Seq<AnalyzeCacheEntry>,
    key: (AnalyzeCacheKey, Seq<char>),
    i: int,
)
    requires
        0 <= i < entries.len(),
        entries[i].skey() == key,
        forall|j: int| 0 <= j < i ==> (#[trigger] entries[j]).skey() != key,
        promoted == seq![entries[i]] + entries.remove(i),
    ensures
        analyze_kv(promoted) == model_promote(analyze_kv(entries), key),
{
    lemma_analyze_find_at(entries, key, i);
    lemma_analyze_remove(entries, entries.remove(i), key, i);
    assert(analyze_kv(promoted) =~= seq![(key, entries[i].sval())] + analyze_kv(
        entries.remove(i),
    ));
}


/// When the first `i` entries miss and entry `i` matches, the model lookup
/// returns entry `i`'s value.
proof fn lemma_split_find_at(entries: Seq<SplitCacheEntry>, key: (i32, Seq<char>), i: int)
    requires
        0 <= i < entries.len(),
        entries[i].skey() == key,
        forall|j: int| 0 <= j < i ==> (#[trigger] entries[j]).skey() != key,
    ensures
        model_find(split_kv(entries), key) == Some(entries[i].sval()),
    decreases i,
{
    let kv = split_kv(entries);
    if i == 0 {
        assert(kv[0] == (entries[0].skey(), entries[0].sval()));
    } else {
        let rest = entries.drop_first();
        assert forall|j: int| 0 <= j < i - 1 implies (#[trigger] rest[j]).skey() != key by {
            assert(rest[j] == entries[j + 1]);
        }
        assert(rest[i - 1] == entries[i]);
        lemma_split_find_at(rest, key, i - 1);
        assert(kv[0] == (entries[0].skey(), entries[0].sval()));
        assert(kv.drop_first() =~= split_kv(rest));
    }
}

/// When no entry matches, the model lookup misses.
proof fn lemma_split_find_none(entries: Seq<SplitCacheEntry>, key: (i32, Seq<char>))
    requires
        forall|j: int| 0 <= j < entries.len() ==> (#[trigger] entries[j]).skey() != key,
    ensures
        model_find(split_kv(entries), key) is None,
    decreases entries.len(),
{
    if entries.len() > 0 {
        let rest = entries.drop_first();
        assert forall|j: int| 0 <= j < rest.len() implies (#[trigger] rest[j]).skey() != key by {
            assert(rest[j] == entries[j + 1]);
        }
        lemma_split_find_none(rest, key);
        assert(split_kv(entries)[0] == (entries[0].skey(), entries[0].sval()));
        assert(split_kv(entries).drop_first() =~= split_kv(rest));
    }
}

/// Removing the first matching entry agrees with the model removal.
proof fn lemma_split_remove(
    entries: Seq<SplitCacheEntry>,
    removed: Seq<SplitCacheEntry>,
    key: (i32, Seq<char>),
    i: int,
)
    requires
        0 <= i < entries.len(),
        entries[i].skey() == key,
        forall|j: int| 0 <= j < i ==> (#[trigger] entries[j]).skey() != key,
        removed == entries.remove(i),
    ensures
        split_kv(removed) == crate::cache::model_remove(split_kv(entries), key),
    decreases i,
{
    let kv = split_kv(entries);
    if i == 0 {
        assert(kv[0] == (entries[0].skey(), entries[0].sval()));
        assert(split_kv(removed) =~= kv.drop_first());
        assert(removed =~= entries.drop_first());
        assert(split_kv(entries.drop_first()) =~= kv.drop_first());
    } else {
        let rest = entries.drop_first();
        assert forall|j: int| 0 <= j < i - 1 implies (#[trigger] rest[j]).skey() != key by {
            assert(rest[j] == entries[j + 1]);
        }
        assert(rest[i - 1] == entries[i]);
        lemma_split_remove(rest, rest.remove(i - 1), key, i - 1);
        assert(kv[0] == (entries[0].skey(), entries[0].sval()));
        assert(kv.drop_first() =~= split_kv(rest));
        assert(removed =~= seq![entries[0]] + rest.remove(i - 1));
        assert(split_kv(removed) =~= seq![kv[0]] + split_kv(rest.remove(i - 1)));
    }
}

/// Moving the matching entry to the front agrees with the model promotion.
proof fn lemma_split_promote(
    entries: Seq<SplitCacheEntry>,
    promoted: Seq<SplitCacheEntry>,
    key: (i32, Seq<char>),
    i: int,
)
    requires
        0 <= i < entries.len(),
        entries[i].skey() == key,
        forall|j: int| 0 <= j < i ==> (#[trigger] entries[j]).skey() != key,
        promoted == seq![entries[i]] + entries.remove(i),
    ensures
        split_kv(promoted) == model_promote(split_kv(entries), key),
{
    lemma_split_find_at(entries, key, i);
    lemma_split_remove(entries, entries.remove(i), key, i);
    assert(split_kv(promoted) =~= seq![(key, entries[i].sval())] + split_kv(
        entries.remove(i),
    ));
}


/// When the first `i` entries miss and entry `i` matches, the model lookup
/// returns entry `i`'s value.
proof fn lemma_glue_find_at(entries: Seq<GlueCacheEntry>, key: (Seq<Seq<char>>, Option<Seq<bool>>), i: int)
    requires
        0 <= i < entries.len(),
        entries[i].skey() == key,
        forall|j: int| 0 <= j < i ==> (#[trigger] entries[j]).skey() != key,
    ensures
        model_find(glue_kv(entries), key) == Some(entries[i].sval()),
    decreases i,
{
    let kv = glue_kv(entries);
    if i == 0 {
        assert(kv[0] == (entries[0].skey(), entries[0].sval()));
    } else {
        let rest = entries.drop_first();
        assert forall|j: int| 0 <= j < i - 1 implies (#[trigger] rest[j]).skey() != key by {
            assert(rest[j] == entries[j + 1]);
        }
        assert(rest[i - 1] == entries[i]);
        lemma_glue_find_at(rest, key, i - 1);
        assert(kv[0] == (entries[0].skey(), entries[0].sval()));
        assert(kv.drop_first() =~= glue_kv(rest));
    }
}

/// When no entry matches, the model lookup misses.
proof fn lemma_glue_find_none(entries: Seq<GlueCacheEntry>, key: (Seq<Seq<char>>, Option<Seq<bool>>))
    requires
        forall|j: int| 0 <= j < entries.len() ==> (#[trigger] entries[j]).skey() != key,
    ensures
        model_find(glue_kv(entries), key) is None,
    decreases entries.len(),
{
    if entries.len() > 0 {
        let rest = entries.drop_first();
        assert forall|j: int| 0 <= j < rest.len() implies (#[trigger] rest[j]).skey() != key by {
            assert(rest[j] == entries[j + 1]);
        }
        lemma_glue_find_none(rest, key);
        assert(glue_kv(entries)[0] == (entries[0].skey(), entries[0].sval()));
        assert(glue_kv(entries).drop_first() =~= glue_kv(rest));
    }
}

/// Removing the first matching entry agrees with the model removal.
proof fn lemma_glue_remove(
    entries: Seq<GlueCacheEntry>,
    removed: Seq<GlueCacheEntry>,
    key: (Seq<Seq<char>>, Option<Seq<bool>>),
    i: int,
)
    requires
        0 <= i < entries.len(),
        entries[i].skey() == key,
        forall|j: int| 0 <= j < i ==> (#[trigger] entries[j]).skey() != key,
        removed == entries.remove(i),
    ensures
        glue_kv(removed) == crate::cache::model_remove(glue_kv(entries), key),
    decreases i,
{
    let kv = glue_kv(entries);
    if i == 0 {
        assert(kv[0] == (entries[0].skey(), entries[0].sval()));
        assert(glue_kv(removed) =~= kv.drop_first());
        assert(removed =~= entries.drop_first());
        assert(glue_kv(entries.drop_first()) =~= kv.drop_first());
    } else {
        let rest = entries.drop_first();
        assert forall|j: int| 0 <= j < i - 1 implies (#[trigger] rest[j]).skey() != key by {
            assert(rest[j] == entries[j + 1]);
        }
        assert(rest[i - 1] == entries[i]);
        lemma_glue_remove(rest, rest.remove(i - 1), key, i - 1);
        assert(kv[0] == (entries[0].skey(), entries[0].sval()));
        assert(kv.drop_first() =~= glue_kv(rest));
        assert(removed =~= seq![entries[0]] + rest.remove(i - 1));
        assert(glue_kv(removed) =~= seq![kv[0]] + glue_kv(rest.remove(i - 1)));
    }
}

/// Moving the matching entry to the front agrees with the model promotion.
proof fn lemma_glue_promote(
    entries: Seq<GlueCacheEntry>,
    promoted: Seq<GlueCacheEntry>,
    key: (Seq<Seq<char>>, Option<Seq<bool>>),
    i: int,
)
    requires
        0 <= i < entries.len(),
        entries[i].skey() == key,
        forall|j: int| 0 <= j < i ==> (#[trigger] entries[j]).skey() != key,
        promoted == seq![entries[i]] + entries.remove(i),
    ensures
        glue_kv(promoted) == model_promote(glue_kv(entries), key),
{
    lemma_glue_find_at(entries, key, i);
    lemma_glue_remove(entries, entries.remove(i), key, i);
    assert(glue_kv(promoted) =~= seq![(key, entries[i].sval())] + glue_kv(
        entries.remove(i),
    ));
}


/// When the first `i` entries miss and entry `i` matches, the model lookup
/// returns entry `i`'s value.
proof fn lemma_glue_pair_find_at(entries: Seq<GluePairScoreCacheEntry>, key: (Seq<char>, Seq<char>), i: int)
    requires
        0 <= i < entries.len(),
        entries[i].skey() == key,
        forall|j: int| 0 <= j < i ==> (#[trigger] entries[j]).skey() != key,
    ensures
        model_find(glue_pair_kv(entries), key) == Some(entries[i].sval()),
    decreases i,
{
    let kv = glue_pair_kv(entries);
    if i == 0 {
        assert(kv[0] == (entries[0].skey(), entries[0].sval()));
    } else {
        let rest = entries.drop_first();
        assert forall|j: int| 0 <= j < i - 1 implies (#[trigger] rest[j]).skey() != key by {
            assert(rest[j] == entries[j + 1]);
        }
        assert(rest[i - 1] == entries[i]);
        lemma_glue_pair_find_at(rest, key, i - 1);
        assert(kv[0] == (entries[0].skey(), entries[0].sval()));
        assert(kv.drop_first() =~= glue_pair_kv(rest));
    }
}

/// When no entry matches, the model lookup misses.
proof fn lemma_glue_pair_find_none(entries: Seq<GluePairScoreCacheEntry>, key: (Seq<char>, Seq<char>))
    requires
        forall|j: int| 0 <= j < entries.len() ==> (#[trigger] entries[j]).skey() != key,
    ensures
        model_find(glue_pair_kv(entries), key) is None,
    decreases entries.len(),
{
    if entries.len() > 0 {
        let rest = entries.drop_first();
        assert forall|j: int| 0 <= j < rest.len() implies (#[trigger] rest[j]).skey() != key by {
            assert(rest[j] == entries[j + 1]);
        }
        lemma_glue_pair_find_none(rest, key);
        assert(glue_pair_kv(entries)[0] == (entries[0].skey(), entries[0].sval()));
        assert(glue_pair_kv(entries).drop_first() =~= glue_pair_kv(rest));
    }
}

/// Removing the first matching entry agrees with the model removal.
proof fn lemma_glue_pair_remove(
    entries: Seq<GluePairScoreCacheEntry>,
    removed: Seq<GluePairScoreCacheEntry>,
    key: (Seq<char>, Seq<char>),
    i: int,
)
    requires
        0 <= i < entries.len(),
        entries[i].skey() == key,
        forall|j: int| 0 <= j < i ==> (#[trigger] entries[j]).skey() != key,
        removed == entries.remove(i),
    ensures
        glue_pair_kv(removed) == crate::cache::model_remove(glue_pair_kv(entries), key),
    decreases i,
{
    let kv = glue_pair_kv(entries);
    if i == 0 {
        assert(kv[0] == (entries[0].skey(), entries[0].sval()));
        assert(glue_pair_kv(removed) =~= kv.drop_first());
        assert(removed =~= entries.drop_first());
        assert(glue_pair_kv(entries.drop_first()) =~= kv.drop_first());
    } else {
        let rest = entries.drop_first();
        assert forall|j: int| 0 <= j < i - 1 implies (#[trigger] rest[j]).skey() != key by {
            assert(rest[j] == entries[j + 1]);
        }
        assert(rest[i - 1] == entries[i]);
        lemma_glue_pair_remove(rest, rest.remove(i - 1), key, i - 1);
        assert(kv[0] == (entries[0].skey(), entries[0].sval()));
        assert(kv.drop_first() =~= glue_pair_kv(rest));
        assert(removed =~= seq![entries[0]] + rest.remove(i - 1));
        assert(glue_pair_kv(removed) =~= seq![kv[0]] + glue_pair_kv(rest.remove(i - 1)));
    }
}

/// Moving the matching entry to the front agrees with the model promotion.
proof fn lemma_glue_pair_promote(
    entries: Seq<GluePairScoreCacheEntry>,
    promoted: Seq<GluePairScoreCacheEntry>,
    key: (Seq<char>, Seq<char>),
    i: int,
)
    requires
        0 <= i < entries.len(),
        entries[i].skey() == key,
        forall|j: int| 0 <= j < i ==> (#[trigger] entries[j]).skey() != key,
        promoted == seq![entries[i]] + entries.remove(i),
    ensures
        glue_pair_kv(promoted) == model_promote(glue_pair_kv(entries), key),
{
    lemma_glue_pair_find_at(entries, key, i);
    lemma_glue_pair_remove(entries, entries.remove(i), key, i);
    assert(glue_pair_kv(promoted) =~= seq![(key, entries[i].sval())] + glue_pair_kv(
        entries.remove(i),
    ));
}


/// The mutable analysis state: the six bounded recency caches, the regex
/// pretokenization rules, and the default analysis options. Construct one
/// per analyzer instance; the caches start empty.
pub struct Kiwi {
    default_analyze_options: AnalyzeOptions,
    re_word_rules: Vec<ReWordRule>,
    join_cache: VecDeque<JoinCacheEntry>,
    tokenize_cache: VecDeque<TokenizeCacheEntry>,
    analyze_cache: VecDeque<AnalyzeCacheEntry>,
    split_cache: VecDeque<SplitCacheEntry>,
    glue_cache: VecDeque<GlueCacheEntry>,
    glue_pair_cache: VecDeque<GluePairScoreCacheEntry>,
}

impl Kiwi {
    /// All cache entries are well formed and every cache is within its
    /// capacity.
    pub closed spec fn wf(self) -> bool {
        &&& self.tokenize_cache@.len() <= TOKENIZE_CACHE_CAPACITY
        &&& forall|i: int|
            0 <= i < self.tokenize_cache@.len() ==> (#[trigger] self.tokenize_cache@[i]).wf()
        &&& self.analyze_cache@.len() <= ANALYZE_CACHE_CAPACITY
        &&& forall|i: int|
            0 <= i < self.analyze_cache@.len() ==> (#[trigger] self.analyze_cache@[i]).wf()
        &&& self.split_cache@.len() <= SPLIT_CACHE_CAPACITY
        &&& forall|i: int|
            0 <= i < self.split_cache@.len() ==> (#[trigger] self.split_cache@[i]).wf()
        &&& self.glue_cache@.len() <= GLUE_CACHE_CAPACITY
        &&& forall|i: int|
            0 <= i < self.glue_cache@.len() ==> (#[trigger] self.glue_cache@[i]).wf()
        &&& self.glue_pair_cache@.len() <= GLUE_PAIR_CACHE_CAPACITY
        &&& forall|i: int|
            0 <= i < self.glue_pair_cache@.len() ==> (#[trigger] self.glue_pair_cache@[i]).wf()
        &&& self.join_cache@.len() <= JOIN_CACHE_CAPACITY
    }

    /// The spec view of the tokenize cache.
    pub closed spec fn tokenize_model(self) -> Seq<((TokenizeCacheKey, Seq<char>), Seq<Token>)> {
        tokenize_kv(self.tokenize_cache@)
    }

    /// The spec view of the analyze cache.
    pub closed spec fn analyze_model(self) -> Seq<
        ((AnalyzeCacheKey, Seq<char>), Seq<(u32, Seq<Token>)>),
    > {
        analyze_kv(self.analyze_cache@)
    }

    /// The spec view of the split cache.
    pub closed spec fn split_model(self) -> Seq<((i32, Seq<char>), Seq<SentenceBoundary>)> {
        split_kv(self.split_cache@)
    }

    /// The spec view of the glue cache.
    pub closed spec fn glue_model(self) -> Seq<
        ((Seq<Seq<char>>, Option<Seq<bool>>), (Seq<char>, Seq<bool>)),
    > {
        glue_kv(self.glue_cache@)
    }

    /// The spec view of the glue pair cache.
    pub closed spec fn glue_pair_model(self) -> Seq<((Seq<char>, Seq<char>), bool)> {
        glue_pair_kv(self.glue_pair_cache@)
    }

    /// The spec view of the join cache, most recent first.
    pub closed spec fn join_model(self) -> Seq<
        ((bool, Seq<(Seq<char>, Seq<char>)>), Seq<char>),
    > {
        join_kv(self.join_cache@)
    }

    /// The default options used by the convenience APIs.
    pub closed spec fn spec_default_analyze_options(self) -> AnalyzeOptions {
        self.default_analyze_options
    }

    /// The registered regex pretokenization rules.
    pub closed spec fn re_rules(self) -> Seq<ReWordRule> {
        self.re_word_rules@
    }

    /// The tags of the registered regex pretokenization rules.
    pub open spec fn re_rule_tags(self) -> Seq<Seq<char>> {
        self.re_rules().map_values(|r: ReWordRule| r.spec_tag())
    }

    /// The pattern texts of the registered regex pretokenization rules.
    pub open spec fn re_rule_sources(self) -> Seq<Seq<char>> {
        self.re_rules().map_values(|r: ReWordRule| r.spec_source())
    }

    /// The five analyzer-output caches are unchanged between two states.
    pub open spec fn inference_caches_unchanged(pre: Kiwi, post: Kiwi) -> bool {
        &&& post.tokenize_model() == pre.tokenize_model()
        &&& post.analyze_model() == pre.analyze_model()
        &&& post.split_model() == pre.split_model()
        &&& post.glue_model() == pre.glue_model()
        &&& post.glue_pair_model() == pre.glue_pair_model()
    }

    /// The five analyzer-output caches are empty; the join cache, the
    /// rules and the options carry over from `pre`. This is the state the
    /// Invalidation Controller leaves behind.
    pub open spec fn spec_invalidated(pre: Kiwi, post: Kiwi) -> bool {
        &&& post.tokenize_model() == Seq::<((TokenizeCacheKey, Seq<char>), Seq<Token>)>::empty()
        &&& post.analyze_model() == Seq::<
            ((AnalyzeCacheKey, Seq<char>), Seq<(u32, Seq<Token>)>),
        >::empty()
        &&& post.split_model() == Seq::<((i32, Seq<char>), Seq<SentenceBoundary>)>::empty()
        &&& post.glue_model() == Seq::<
            ((Seq<Seq<char>>, Option<Seq<bool>>), (Seq<char>, Seq<bool>)),
        >::empty()
        &&& post.glue_pair_model() == Seq::<((Seq<char>, Seq<char>), bool)>::empty()
        &&& post.join_model() == pre.join_model()
    }

    /// Creates an analysis state with the given default options, no rules
    /// and empty caches.
    pub fn new(default_analyze_options: AnalyzeOptions) -> (r: Self)
        ensures
            r.wf(),
            r.spec_default_analyze_options() == default_analyze_options,
            r.re_rules() == Seq::<ReWordRule>::empty(),
            Self::spec_invalidated(r, r),
    {
        let r = Kiwi {
            default_analyze_options,
            re_word_rules: Vec::new(),
            join_cache: VecDeque::new(),
            tokenize_cache: VecDeque::new(),
            analyze_cache: VecDeque::new(),
            split_cache: VecDeque::new(),
            glue_cache: VecDeque::new(),
            glue_pair_cache: VecDeque::new(),
        };
        proof {
            assert(r.tokenize_model() =~= Seq::<
                ((TokenizeCacheKey, Seq<char>), Seq<Token>),
            >::empty());
            assert(r.analyze_model() =~= Seq::<
                ((AnalyzeCacheKey, Seq<char>), Seq<(u32, Seq<Token>)>),
            >::empty());
            assert(r.split_model() =~= Seq::<
                ((i32, Seq<char>), Seq<SentenceBoundary>),
            >::empty());
            assert(r.glue_model() =~= Seq::<
                ((Seq<Seq<char>>, Option<Seq<bool>>), (Seq<char>, Seq<bool>)),
            >::empty());
            assert(r.glue_pair_model() =~= Seq::<((Seq<char>, Seq<char>), bool)>::empty());
            assert(r.join_cache@.reverse() =~= Seq::<JoinCacheEntry>::empty());
            assert(r.join_model() =~= Seq::<
                ((bool, Seq<(Seq<char>, Seq<char>)>), Seq<char>),
            >::empty());
            assert(r.re_rules() =~= Seq::<ReWordRule>::empty());
        }
        r
    }

    /// Returns the default options used by the convenience APIs.
    pub fn default_analyze_options(&self) -> (r: AnalyzeOptions)
        ensures
            r == self.spec_default_analyze_options(),
    {
        self.default_analyze_options
    }

    /// Clears the five analyzer-output caches. Every mutator of analyzer
    /// configuration calls this as its last step; the join cache is
    /// deliberately exempt, because join results depend only on the
    /// explicit morph sequence and the search flag, not on the global
    /// tuning knobs that invalidate the other caches.
    pub fn clear_inference_caches(&mut self)
        requires
            old(self).wf(),
        ensures
            final(self).wf(),
            Self::spec_invalidated(*old(self), *final(self)),
            final(self).spec_default_analyze_options() == old(
                self,
            ).spec_default_analyze_options(),
            final(self).re_rules() == old(self).re_rules(),
    {
        self.tokenize_cache.clear();
        self.analyze_cache.clear();
        self.split_cache.clear();
        self.glue_cache.clear();
        self.glue_pair_cache.clear();
        proof {
            assert(self.tokenize_model() =~= Seq::<
                ((TokenizeCacheKey, Seq<char>), Seq<Token>),
            >::empty());
            assert(self.analyze_model() =~= Seq::<
                ((AnalyzeCacheKey, Seq<char>), Seq<(u32, Seq<Token>)>),
            >::empty());
            assert(self.split_model() =~= Seq::<
                ((i32, Seq<char>), Seq<SentenceBoundary>),
            >::empty());
            assert(self.glue_model() =~= Seq::<
                ((Seq<Seq<char>>, Option<Seq<bool>>), (Seq<char>, Seq<bool>)),
            >::empty());
            assert(self.glue_pair_model() =~= Seq::<((Seq<char>, Seq<char>), bool)>::empty());
        }
    }

    /// Replaces the default options used by the convenience APIs and, like
    /// every configuration mutator, clears the analyzer-output caches.
    pub fn set_default_analyze_options(&mut self, options: AnalyzeOptions)
        requires
            old(self).wf(),
        ensures
            final(self).wf(),
            final(self).spec_default_analyze_options() == options,
            Self::spec_invalidated(*old(self), *final(self)),
            final(self).re_rules() == old(self).re_rules(),
    {
        self.default_analyze_options = options;
        self.clear_inference_caches();
    }


    /// Looks up a tokenization result: on a hit the entry moves to the front and
    /// a copy of the cached result is returned.
    pub fn lookup_tokenize_cache(&mut self, text: &str, key: TokenizeCacheKey) -> (r: Option<Vec<Token>>)
        requires
            old(self).wf(),
        ensures
            final(self).wf(),
            final(self).tokenize_model() == model_promote(old(self).tokenize_model(), (key, text@)),
            match r {
                Some(value) => model_find(old(self).tokenize_model(), (key, text@)) == Some(value@),
                None => model_find(old(self).tokenize_model(), (key, text@)) is None,
            },
            final(self).analyze_model() == old(self).analyze_model(),
            final(self).split_model() == old(self).split_model(),
            final(self).glue_model() == old(self).glue_model(),
            final(self).glue_pair_model() == old(self).glue_pair_model(),
            final(self).join_model() == old(self).join_model(),
            final(self).spec_default_analyze_options() == old(self).spec_default_analyze_options(),
            final(self).re_rules() == old(self).re_rules(),
    {
        let fingerprint = TextFingerprint::of(text);
        let ghost skey = (key, text@);
        let n = self.tokenize_cache.len();
        let mut i: usize = 0;
        while i < n
            invariant
                i <= n,
                n == self.tokenize_cache@.len(),
                old(self).wf(),
                *self == *old(self),
                skey == (key, text@),
                fingerprint == spec_fingerprint(text@),
                forall|j: int|
                    0 <= j < i ==> (#[trigger] self.tokenize_cache@[j]).skey() != skey,
            decreases n - i,
        {
            let hit = self.tokenize_cache[i].matches(text, key, fingerprint);
            if hit {
                proof {
                    lemma_tokenize_find_at(self.tokenize_cache@, skey, i as int);
                }
                let ghost orig = self.tokenize_cache@;
                let entry = self.tokenize_cache.remove(i).unwrap();
                let value = clone_tokens(&entry.tokens);
                self.tokenize_cache.push_front(entry);
                proof {
                    lemma_tokenize_promote(orig, self.tokenize_cache@, skey, i as int);
                    assert forall|j: int| 0 <= j < self.tokenize_cache@.len() implies (
                    #[trigger] self.tokenize_cache@[j]).wf() by {
                        if j > 0 {
                            assert(self.tokenize_cache@[j] == orig.remove(i as int)[j - 1]);
                        }
                    }
                }
                return Some(value);
            }
            i = i + 1;
        }
        proof {
            lemma_tokenize_find_none(self.tokenize_cache@, skey);
        }
        None
    }


    /// Inserts a tokenization result: any duplicate entry for the same key is
    /// removed, the coldest entry is evicted at capacity, and the new entry
    /// goes to the front.
    pub fn insert_tokenize_cache(&mut self, text: &str, key: TokenizeCacheKey, tokens: &Vec<Token>)
        requires
            old(self).wf(),
        ensures
            final(self).wf(),
            final(self).tokenize_model() == model_insert(
                old(self).tokenize_model(),
                (key, text@),
                tokens@,
                TOKENIZE_CACHE_CAPACITY as int,
            ),
            final(self).analyze_model() == old(self).analyze_model(),
            final(self).split_model() == old(self).split_model(),
            final(self).glue_model() == old(self).glue_model(),
            final(self).glue_pair_model() == old(self).glue_pair_model(),
            final(self).join_model() == old(self).join_model(),
            final(self).spec_default_analyze_options() == old(self).spec_default_analyze_options(),
            final(self).re_rules() == old(self).re_rules(),
    {
        let fingerprint = TextFingerprint::of(text);
        let ghost skey = (key, text@);
        let ghost orig = self.tokenize_cache@;
        let n = self.tokenize_cache.len();
        let mut i: usize = 0;
        let mut removed = false;
        while i < n && !removed
            invariant
                i <= n,
                n == orig.len(),
                old(self).wf(),
                orig == old(self).tokenize_cache@,
                skey == (key, text@),
                fingerprint == spec_fingerprint(text@),
                !removed ==> self.tokenize_cache@ == orig,
                !removed ==> forall|j: int|
                    0 <= j < i ==> (#[trigger] orig[j]).skey() != skey,
                removed ==> 0 < i <= n && orig[i - 1].skey() == skey && (forall|j: int|
                    0 <= j < i - 1 ==> (#[trigger] orig[j]).skey() != skey)
                    && self.tokenize_cache@ == orig.remove(i - 1),
                self.default_analyze_options == old(self).default_analyze_options,
                self.re_word_rules@ == old(self).re_word_rules@,
                self.analyze_cache@ == old(self).analyze_cache@,
                self.split_cache@ == old(self).split_cache@,
                self.glue_cache@ == old(self).glue_cache@,
                self.glue_pair_cache@ == old(self).glue_pair_cache@,
                self.join_cache@ == old(self).join_cache@,
            decreases n - i,
        {
            let hit = self.tokenize_cache[i].matches(text, key, fingerprint);
            if hit {
                let _ = self.tokenize_cache.remove(i);
                removed = true;
            }
            i = i + 1;
        }
        proof {
            if removed {
                lemma_tokenize_find_at(orig, skey, i as int - 1);
                lemma_tokenize_remove(orig, self.tokenize_cache@, skey, i as int - 1);
            } else {
                lemma_tokenize_find_none(orig, skey);
                crate::cache::lemma_find_none_iff_absent(tokenize_kv(orig), skey);
                crate::cache::lemma_remove_absent(tokenize_kv(orig), skey);
            }
            assert forall|j: int| 0 <= j < self.tokenize_cache@.len() implies (
            #[trigger] self.tokenize_cache@[j]).wf() by {
                if removed {
                    if j < i - 1 {
                        assert(self.tokenize_cache@[j] == orig[j]);
                    } else {
                        assert(self.tokenize_cache@[j] == orig[j + 1]);
                    }
                }
            }
        }
        if self.tokenize_cache.len() >= TOKENIZE_CACHE_CAPACITY {
            let ghost before_pop = self.tokenize_cache@;
            let _ = self.tokenize_cache.pop_back();
            proof {
                assert(tokenize_kv(self.tokenize_cache@) =~= tokenize_kv(before_pop).drop_last());
                assert forall|j: int| 0 <= j < self.tokenize_cache@.len() implies (
                #[trigger] self.tokenize_cache@[j]).wf() by {
                    assert(self.tokenize_cache@[j] == before_pop[j]);
                }
            }
        }
        let entry = TokenizeCacheEntry {
            key,
            fingerprint,
            text: text.to_owned(),
            tokens: clone_tokens(tokens),
        };
        self.tokenize_cache.push_front(entry);
        proof {
            let m = tokenize_kv(self.tokenize_cache@);
            let prev = self.tokenize_cache@.drop_first();
            assert forall|j: int| 0 <= j < m.len() implies m[j] == (seq![(skey, tokens@)]
                + tokenize_kv(prev))[j] by {
                if j > 0 {
                    assert(self.tokenize_cache@[j] == prev[j - 1]);
                }
            }
            assert(m =~= seq![(skey, tokens@)] + tokenize_kv(prev));
            assert forall|j: int| 0 <= j < self.tokenize_cache@.len() implies (
            #[trigger] self.tokenize_cache@[j]).wf() by {
                if j > 0 {
                    assert(self.tokenize_cache@[j] == prev[j - 1]);
                }
            }
        }
    }


    /// Looks up a analysis result: on a hit the entry moves to the front and
    /// a copy of the cached result is returned.
    pub fn lookup_analyze_cache(&mut self, text: &str, key: AnalyzeCacheKey) -> (r: Option<Vec<AnalysisCandidate>>)
        requires
            old(self).wf(),
        ensures
            final(self).wf(),
            final(self).analyze_model() == model_promote(old(self).analyze_model(), (key, text@)),
            match r {
                Some(value) => model_find(old(self).analyze_model(), (key, text@)) == Some(cands_view(value@)),
                None => model_find(old(self).analyze_model(), (key, text@)) is None,
            },
            final(self).tokenize_model() == old(self).tokenize_model(),
            final(self).split_model() == old(self).split_model(),
            final(self).glue_model() == old(self).glue_model(),
            final(self).glue_pair_model() == old(self).glue_pair_model(),
            final(self).join_model() == old(self).join_model(),
            final(self).spec_default_analyze_options() == old(self).spec_default_analyze_options(),
            final(self).re_rules() == old(self).re_rules(),
    {
        let fingerprint = TextFingerprint::of(text);
        let ghost skey = (key, text@);
        let n = self.analyze_cache.len();
        let mut i: usize = 0;
        while i < n
            invariant
                i <= n,
                n == self.analyze_cache@.len(),
                old(self).wf(),
                *self == *old(self),
                skey == (key, text@),
                fingerprint == spec_fingerprint(text@),
                forall|j: int|
                    0 <= j < i ==> (#[trigger] self.analyze_cache@[j]).skey() != skey,
            decreases n - i,
        {
            let hit = self.analyze_cache[i].matches(text, key, fingerprint);
            if hit {
                proof {
                    lemma_analyze_find_at(self.analyze_cache@, skey, i as int);
                }
                let ghost orig = self.analyze_cache@;
                let entry = self.analyze_cache.remove(i).unwrap();
                let value = clone_candidates(&entry.candidates);
                self.analyze_cache.push_front(entry);
                proof {
                    lemma_analyze_promote(orig, self.analyze_cache@, skey, i as int);
                    assert forall|j: int| 0 <= j < self.analyze_cache@.len() implies (
                    #[trigger] self.analyze_cache@[j]).wf() by {
                        if j > 0 {
                            assert(self.analyze_cache@[j] == orig.remove(i as int)[j - 1]);
                        }
                    }
                }
                return Some(value);
            }
            i = i + 1;
        }
        proof {
            lemma_analyze_find_none(self.analyze_cache@, skey);
        }
        None
    }


    /// Inserts a analysis result: any duplicate entry for the same key is
    /// removed, the coldest entry is evicted at capacity, and the new entry
    /// goes to the front.
    pub fn insert_analyze_cache(&mut self, text: &str, key: AnalyzeCacheKey, candidates: &Vec<AnalysisCandidate>)
        requires
            old(self).wf(),
        ensures
            final(self).wf(),
            final(self).analyze_model() == model_insert(
                old(self).analyze_model(),
                (key, text@),
                cands_view(candidates@),
                ANALYZE_CACHE_CAPACITY as int,
            ),
            final(self).tokenize_model() == old(self).tokenize_model(),
            final(self).split_model() == old(self).split_model(),
            final(self).glue_model() == old(self).glue_model(),
            final(self).glue_pair_model() == old(self).glue_pair_model(),
            final(self).join_model() == old(self).join_model(),
            final(self).spec_default_analyze_options() == old(self).spec_default_analyze_options(),
            final(self).re_rules() == old(self).re_rules(),
    {
        let fingerprint = TextFingerprint::of(text);
        let ghost skey = (key, text@);
        let ghost orig = self.analyze_cache@;
        let n = self.analyze_cache.len();
        let mut i: usize = 0;
        let mut removed = false;
        while i < n && !removed
            invariant
                i <= n,
                n == orig.len(),
                old(self).wf(),
                orig == old(self).analyze_cache@,
                skey == (key, text@),
                fingerprint == spec_fingerprint(text@),
                !removed ==> self.analyze_cache@ == orig,
                !removed ==> forall|j: int|
                    0 <= j < i ==> (#[trigger] orig[j]).skey() != skey,
                removed ==> 0 < i <= n && orig[i - 1].skey() == skey && (forall|j: int|
                    0 <= j < i - 1 ==> (#[trigger] orig[j]).skey() != skey)
                    && self.analyze_cache@ == orig.remove(i - 1),
                self.default_analyze_options == old(self).default_analyze_options,
                self.re_word_rules@ == old(self).re_word_rules@,
                self.tokenize_cache@ == old(self).tokenize_cache@,
                self.split_cache@ == old(self).split_cache@,
                self.glue_cache@ == old(self).glue_cache@,
                self.glue_pair_cache@ == old(self).glue_pair_cache@,
                self.join_cache@ == old(self).join_cache@,
            decreases n - i,
        {
            let hit = self.analyze_cache[i].matches(text, key, fingerprint);
            if hit {
                let _ = self.analyze_cache.remove(i);
                removed = true;
            }
            i = i + 1;
        }
        proof {
            if removed {
                lemma_analyze_find_at(orig, skey, i as int - 1);
                lemma_analyze_remove(orig, self.analyze_cache@, skey, i as int - 1);
            } else {
                lemma_analyze_find_none(orig, skey);
                crate::cache::lemma_find_none_iff_absent(analyze_kv(orig), skey);
                crate::cache::lemma_remove_absent(analyze_kv(orig), skey);
            }
            assert forall|j: int| 0 <= j < self.analyze_cache@.len() implies (
            #[trigger] self.analyze_cache@[j]).wf() by {
                if removed {
                    if j < i - 1 {
                        assert(self.analyze_cache@[j] == orig[j]);
                    } else {
                        assert(self.analyze_cache@[j] == orig[j + 1]);
                    }
                }
            }
        }
        if self.analyze_cache.len() >= ANALYZE_CACHE_CAPACITY {
            let ghost before_pop = self.analyze_cache@;
            let _ = self.analyze_cache.pop_back();
            proof {
                assert(analyze_kv(self.analyze_cache@) =~= analyze_kv(before_pop).drop_last());
                assert forall|j: int| 0 <= j < self.analyze_cache@.len() implies (
                #[trigger] self.analyze_cache@[j]).wf() by {
                    assert(self.analyze_cache@[j] == before_pop[j]);
                }
            }
        }
        let entry = AnalyzeCacheEntry {
            key,
            fingerprint,
            text: text.to_owned(),
            candidates: clone_candidates(candidates),
        };
        self.analyze_cache.push_front(entry);
        proof {
            let m = analyze_kv(self.analyze_cache@);
            let prev = self.analyze_cache@.drop_first();
            assert forall|j: int| 0 <= j < m.len() implies m[j] == (seq![(skey, cands_view(candidates@))]
                + analyze_kv(prev))[j] by {
                if j > 0 {
                    assert(self.analyze_cache@[j] == prev[j - 1]);
                }
            }
            assert(m =~= seq![(skey, cands_view(candidates@))] + analyze_kv(prev));
            assert forall|j: int| 0 <= j < self.analyze_cache@.len() implies (
            #[trigger] self.analyze_cache@[j]).wf() by {
                if j > 0 {
                    assert(self.analyze_cache@[j] == prev[j - 1]);
                }
            }
        }
    }


    /// Looks up a sentence-split result: on a hit the entry moves to the front and
    /// a copy of the cached result is returned.
    pub fn lookup_split_cache(&mut self, text: &str, match_options: i32) -> (r: Option<Vec<SentenceBoundary>>)
        requires
            old(self).wf(),
        ensures
            final(self).wf(),
            final(self).split_model() == model_promote(old(self).split_model(), (match_options, text@)),
            match r {
                Some(value) => model_find(old(self).split_model(), (match_options, text@)) == Some(value@),
                None => model_find(old(self).split_model(), (match_options, text@)) is None,
            },
            final(self).tokenize_model() == old(self).tokenize_model(),
            final(self).analyze_model() == old(self).analyze_model(),
            final(self).glue_model() == old(self).glue_model(),
            final(self).glue_pair_model() == old(self).glue_pair_model(),
            final(self).join_model() == old(self).join_model(),
            final(self).spec_default_analyze_options() == old(self).spec_default_analyze_options(),
            final(self).re_rules() == old(self).re_rules(),
    {
        let fingerprint = TextFingerprint::of(text);
        let ghost skey = (match_options, text@);
        let n = self.split_cache.len();
        let mut i: usize = 0;
        while i < n
            invariant
                i <= n,
                n == self.split_cache@.len(),
                old(self).wf(),
                *self == *old(self),
                skey == (match_options, text@),
                fingerprint == spec_fingerprint(text@),
                forall|j: int|
                    0 <= j < i ==> (#[trigger] self.split_cache@[j]).skey() != skey,
            decreases n - i,
        {
            let hit = self.split_cache[i].matches(text, match_options, fingerprint);
            if hit {
                proof {
                    lemma_split_find_at(self.split_cache@, skey, i as int);
                }
                let ghost orig = self.split_cache@;
                let entry = self.split_cache.remove(i).unwrap();
                let value = copy_boundaries(&entry.boundaries);
                self.split_cache.push_front(entry);
                proof {
                    lemma_split_promote(orig, self.split_cache@, skey, i as int);
                    assert forall|j: int| 0 <= j < self.split_cache@.len() implies (
                    #[trigger] self.split_cache@[j]).wf() by {
                        if j > 0 {
                            assert(self.split_cache@[j] == orig.remove(i as int)[j - 1]);
                        }
                    }
                }
                return Some(value);
            }
            i = i + 1;
        }
        proof {
            lemma_split_find_none(self.split_cache@, skey);
        }
        None
    }


    /// Inserts a sentence-split result: any duplicate entry for the same key is
    /// removed, the coldest entry is evicted at capacity, and the new entry
    /// goes to the front.
    pub fn insert_split_cache(&mut self, text: &str, match_options: i32, boundaries: &Vec<SentenceBoundary>)
        requires
            old(self).wf(),
        ensures
            final(self).wf(),
            final(self).split_model() == model_insert(
                old(self).split_model(),
                (match_options, text@),
                boundaries@,
                SPLIT_CACHE_CAPACITY as int,
            ),
            final(self).tokenize_model() == old(self).tokenize_model(),
            final(self).analyze_model() == old(self).analyze_model(),
            final(self).glue_model() == old(self).glue_model(),
            final(self).glue_pair_model() == old(self).glue_pair_model(),
            final(self).join_model() == old(self).join_model(),
            final(self).spec_default_analyze_options() == old(self).spec_default_analyze_options(),
            final(self).re_rules() == old(self).re_rules(),
    {
        let fingerprint = TextFingerprint::of(text);
        let ghost skey = (match_options, text@);
        let ghost orig = self.split_cache@;
        let n = self.split_cache.len();
        let mut i: usize = 0;
        let mut removed = false;
        while i < n && !removed
            invariant
                i <= n,
                n == orig.len(),
                old(self).wf(),
                orig == old(self).split_cache@,
                skey == (match_options, text@),
                fingerprint == spec_fingerprint(text@),
                !removed ==> self.split_cache@ == orig,
                !removed ==> forall|j: int|
                    0 <= j < i ==> (#[trigger] orig[j]).skey() != skey,
                removed ==> 0 < i <= n && orig[i - 1].skey() == skey && (forall|j: int|
                    0 <= j < i - 1 ==> (#[trigger] orig[j]).skey() != skey)
                    && self.split_cache@ == orig.remove(i - 1),
                self.default_analyze_options == old(self).default_analyze_options,
                self.re_word_rules@ == old(self).re_word_rules@,
                self.tokenize_cache@ == old(self).tokenize_cache@,
                self.analyze_cache@ == old(self).analyze_cache@,
                self.glue_cache@ == old(self).glue_cache@,
                self.glue_pair_cache@ == old(self).glue_pair_cache@,
                self.join_cache@ == old(self).join_cache@,
            decreases n - i,
        {
            let hit = self.split_cache[i].matches(text, match_options, fingerprint);
            if hit {
                let _ = self.split_cache.remove(i);
                removed = true;
            }
            i = i + 1;
        }
        proof {
            if removed {
                lemma_split_find_at(orig, skey, i as int - 1);
                lemma_split_remove(orig, self.split_cache@, skey, i as int - 1);
            } else {
                lemma_split_find_none(orig, skey);
                crate::cache::lemma_find_none_iff_absent(split_kv(orig), skey);
                crate::cache::lemma_remove_absent(split_kv(orig), skey);
            }
            assert forall|j: int| 0 <= j < self.split_cache@.len() implies (
            #[trigger] self.split_cache@[j]).wf() by {
                if removed {
                    if j < i - 1 {
                        assert(self.split_cache@[j] == orig[j]);
                    } else {
                        assert(self.split_cache@[j] == orig[j + 1]);
                    }
                }
            }
        }
        if self.split_cache.len() >= SPLIT_CACHE_CAPACITY {
            let ghost before_pop = self.split_cache@;
            let _ = self.split_cache.pop_back();
            proof {
                assert(split_kv(self.split_cache@) =~= split_kv(before_pop).drop_last());
                assert forall|j: int| 0 <= j < self.split_cache@.len() implies (
                #[trigger] self.split_cache@[j]).wf() by {
                    assert(self.split_cache@[j] == before_pop[j]);
                }
            }
        }
        let entry = SplitCacheEntry {
            match_options,
            fingerprint,
            text: text.to_owned(),
            boundaries: copy_boundaries(boundaries),
        };
        self.split_cache.push_front(entry);
        proof {
            let m = split_kv(self.split_cache@);
            let prev = self.split_cache@.drop_first();
            assert forall|j: int| 0 <= j < m.len() implies m[j] == (seq![(skey, boundaries@)]
                + split_kv(prev))[j] by {
                if j > 0 {
                    assert(self.split_cache@[j] == prev[j - 1]);
                }
            }
            assert(m =~= seq![(skey, boundaries@)] + split_kv(prev));
            assert forall|j: int| 0 <= j < self.split_cache@.len() implies (
            #[trigger] self.split_cache@[j]).wf() by {
                if j > 0 {
                    assert(self.split_cache@[j] == prev[j - 1]);
                }
            }
        }
    }

}


/// When the first `i` entries miss and entry `i` matches, the model lookup
/// returns entry `i`'s value.
proof fn lemma_join_find_at(entries: Seq<JoinCacheEntry>, key: (bool, Seq<(Seq<char>, Seq<char>)>), i: int)
    requires
        0 <= i < entries.len(),
        entries[i].skey() == key,
        forall|j: int| 0 <= j < i ==> (#[trigger] entries[j]).skey() != key,
    ensures
        model_find(join_kv_plain(entries), key) == Some(entries[i].sval()),
    decreases i,
{
    let kv = join_kv_plain(entries);
    if i == 0 {
        assert(kv[0] == (entries[0].skey(), entries[0].sval()));
    } else {
        let rest = entries.drop_first();
        assert forall|j: int| 0 <= j < i - 1 implies (#[trigger] rest[j]).skey() != key by {
            assert(rest[j] == entries[j + 1]);
        }
        assert(rest[i - 1] == entries[i]);
        lemma_join_find_at(rest, key, i - 1);
        assert(kv[0] == (entries[0].skey(), entries[0].sval()));
        assert(kv.drop_first() =~= join_kv_plain(rest));
    }
}

/// When no entry matches, the model lookup misses.
proof fn lemma_join_find_none(entries: Seq<JoinCacheEntry>, key: (bool, Seq<(Seq<char>, Seq<char>)>))
    requires
        forall|j: int| 0 <= j < entries.len() ==> (#[trigger] entries[j]).skey() != key,
    ensures
        model_find(join_kv_plain(entries), key) is None,
    decreases entries.len(),
{
    if entries.len() > 0 {
        let rest = entries.drop_first();
        assert forall|j: int| 0 <= j < rest.len() implies (#[trigger] rest[j]).skey() != key by {
            assert(rest[j] == entries[j + 1]);
        }
        lemma_join_find_none(rest, key);
        assert(join_kv_plain(entries)[0] == (entries[0].skey(), entries[0].sval()));
        assert(join_kv_plain(entries).drop_first() =~= join_kv_plain(rest));
    }
}

/// Removing the first matching entry agrees with the model removal.
proof fn lemma_join_remove(
    entries: Seq<JoinCacheEntry>,
    removed: Seq<JoinCacheEntry>,
    key: (bool, Seq<(Seq<char>, Seq<char>)>),
    i: int,
)
    requires
        0 <= i < entries.len(),
        entries[i].skey() == key,
        forall|j: int| 0 <= j < i ==> (#[trigger] entries[j]).skey() != key,
        removed == entries.remove(i),
    ensures
        join_kv_plain(removed) == crate::cache::model_remove(join_kv_plain(entries), key),
    decreases i,
{
    let kv = join_kv_plain(entries);
    if i == 0 {
        assert(kv[0] == (entries[0].skey(), entries[0].sval()));
        assert(join_kv_plain(removed) =~= kv.drop_first());
        assert(removed =~= entries.drop_first());
        assert(join_kv_plain(entries.drop_first()) =~= kv.drop_first());
    } else {
        let rest = entries.drop_first();
        assert forall|j: int| 0 <= j < i - 1 implies (#[trigger] rest[j]).skey() != key by {
            assert(rest[j] == entries[j + 1]);
        }
        assert(rest[i - 1] == entries[i]);
        lemma_join_remove(rest, rest.remove(i - 1), key, i - 1);
        assert(kv[0] == (entries[0].skey(), entries[0].sval()));
        assert(kv.drop_first() =~= join_kv_plain(rest));
        assert(removed =~= seq![entries[0]] + rest.remove(i - 1));
        assert(join_kv_plain(removed) =~= seq![kv[0]] + join_kv_plain(rest.remove(i - 1)));
    }
}

/// Moving the matching entry to the front agrees with the model promotion.
proof fn lemma_join_promote(
    entries: Seq<JoinCacheEntry>,
    promoted: Seq<JoinCacheEntry>,
    key: (bool, Seq<(Seq<char>, Seq<char>)>),
    i: int,
)
    requires
        0 <= i < entries.len(),
        entries[i].skey() == key,
        forall|j: int| 0 <= j < i ==> (#[trigger] entries[j]).skey() != key,
        promoted == seq![entries[i]] + entries.remove(i),
    ensures
        join_kv_plain(promoted) == model_promote(join_kv_plain(entries), key),
{
    lemma_join_find_at(entries, key, i);
    lemma_join_remove(entries, entries.remove(i), key, i);
    assert(join_kv_plain(promoted) =~= seq![(key, entries[i].sval())] + join_kv_plain(
        entries.remove(i),
    ));
}


impl Kiwi {
    /// Looks up a whole-glue result: on a hit the entry moves to the front
    /// and copies of the cached text and decisions are returned, with the
    /// coherence that the cache invariant guarantees of them.
    pub fn lookup_glue_cache(&mut self, chunks: &[&str], insert_new_lines: Option<&[bool]>) -> (r:
        Option<(String, Vec<bool>)>)
        requires
            old(self).wf(),
        ensures
            final(self).wf(),
            final(self).glue_model() == model_promote(
                old(self).glue_model(),
                (
                    crate::fingerprint::chunks_view(chunks@),
                    match insert_new_lines {
                        Some(f) => Some(f@),
                        None => None,
                    },
                ),
            ),
            match r {
                Some(value) => {
                    &&& model_find(
                        old(self).glue_model(),
                        (
                            crate::fingerprint::chunks_view(chunks@),
                            match insert_new_lines {
                                Some(f) => Some(f@),
                                None => None,
                            },
                        ),
                    ) == Some((value.0@, value.1@))
                    &&& chunks@.len() >= 1
                    &&& value.1@.len() == chunks@.len() - 1
                    &&& value.0@ == spec_glued_text(
                        crate::fingerprint::chunks_view(chunks@),
                        value.1@,
                        match insert_new_lines {
                            Some(f) => Some(f@),
                            None => None,
                        },
                    )
                    &&& forall|b: int|
                        0 <= b < value.1@.len() && spec_ends_with_ascii_word(
                            #[trigger] crate::fingerprint::chunks_view(chunks@)[b],
                        ) ==> value.1@[b]
                },
                None => model_find(
                    old(self).glue_model(),
                    (
                        crate::fingerprint::chunks_view(chunks@),
                        match insert_new_lines {
                            Some(f) => Some(f@),
                            None => None,
                        },
                    ),
                ) is None,
            },
            final(self).tokenize_model() == old(self).tokenize_model(),
            final(self).analyze_model() == old(self).analyze_model(),
            final(self).split_model() == old(self).split_model(),
            final(self).glue_pair_model() == old(self).glue_pair_model(),
            final(self).join_model() == old(self).join_model(),
            final(self).spec_default_analyze_options() == old(self).spec_default_analyze_options(),
            final(self).re_rules() == old(self).re_rules(),
    {
        let fingerprint = crate::fingerprint::glue_fingerprint(chunks, insert_new_lines);
        let ghost skey = (
            crate::fingerprint::chunks_view(chunks@),
            match insert_new_lines {
                Some(f) => Some(f@),
                None => None,
            },
        );
        let n = self.glue_cache.len();
        let mut i: usize = 0;
        while i < n
            invariant
                i <= n,
                n == self.glue_cache@.len(),
                old(self).wf(),
                *self == *old(self),
                skey == (
                    crate::fingerprint::chunks_view(chunks@),
                    match insert_new_lines {
                        Some(f) => Some(f@),
                        None => None,
                    },
                ),
                fingerprint == spec_glue_fingerprint(skey.0, skey.1),
                forall|j: int| 0 <= j < i ==> (#[trigger] self.glue_cache@[j]).skey() != skey,
            decreases n - i,
        {
            let hit = self.glue_cache[i].matches(chunks, insert_new_lines, fingerprint);
            if hit {
                proof {
                    lemma_glue_find_at(self.glue_cache@, skey, i as int);
                }
                let ghost orig = self.glue_cache@;
                let entry = self.glue_cache.remove(i).unwrap();
                let text = entry.glued_text.clone();
                let insertions = copy_bools(entry.space_insertions.as_slice());
                self.glue_cache.push_front(entry);
                proof {
                    lemma_glue_promote(orig, self.glue_cache@, skey, i as int);
                    assert forall|j: int| 0 <= j < self.glue_cache@.len() implies (
                    #[trigger] self.glue_cache@[j]).wf() by {
                        if j > 0 {
                            assert(self.glue_cache@[j] == orig.remove(i as int)[j - 1]);
                        }
                    }
                    assert(strings_view(orig[i as int].chunks@) == skey.0);
                    assert(strings_view(orig[i as int].chunks@).len() == orig[i as int].chunks@.len());
                    assert(skey.0.len() == chunks@.len());
                }
                return Some((text, insertions));
            }
            i = i + 1;
        }
        proof {
            lemma_glue_find_none(self.glue_cache@, skey);
        }
        None
    }

    /// Inserts a whole-glue result. The stored text must be the assembly of
    /// the stored chunks under the stored decisions, and the ASCII override
    /// must already be honored, so that a later hit returns exactly what a
    /// fresh computation would.
    pub fn insert_glue_cache(
        &mut self,
        chunks: &[&str],
        insert_new_lines: Option<&[bool]>,
        glued_text: &str,
        space_insertions: &[bool],
    )
        requires
            old(self).wf(),
            chunks@.len() >= 1,
            space_insertions@.len() == chunks@.len() - 1,
            (match insert_new_lines {
                Some(f) => f@.len() == chunks@.len() - 1,
                None => true,
            }),
            glued_text@ == spec_glued_text(
                crate::fingerprint::chunks_view(chunks@),
                space_insertions@,
                match insert_new_lines {
                    Some(f) => Some(f@),
                    None => None,
                },
            ),
            forall|b: int|
                0 <= b < space_insertions@.len() && spec_ends_with_ascii_word(
                    #[trigger] crate::fingerprint::chunks_view(chunks@)[b],
                ) ==> space_insertions@[b],
        ensures
            final(self).wf(),
            final(self).glue_model() == model_insert(
                old(self).glue_model(),
                (
                    crate::fingerprint::chunks_view(chunks@),
                    match insert_new_lines {
                        Some(f) => Some(f@),
                        None => None,
                    },
                ),
                (glued_text@, space_insertions@),
                GLUE_CACHE_CAPACITY as int,
            ),
            final(self).tokenize_model() == old(self).tokenize_model(),
            final(self).analyze_model() == old(self).analyze_model(),
            final(self).split_model() == old(self).split_model(),
            final(self).glue_pair_model() == old(self).glue_pair_model(),
            final(self).join_model() == old(self).join_model(),
            final(self).spec_default_analyze_options() == old(self).spec_default_analyze_options(),
            final(self).re_rules() == old(self).re_rules(),
    {
        let fingerprint = crate::fingerprint::glue_fingerprint(chunks, insert_new_lines);
        let ghost skey = (
            crate::fingerprint::chunks_view(chunks@),
            match insert_new_lines {
                Some(f) => Some(f@),
                None => None,
            },
        );
        let ghost orig = self.glue_cache@;
        let n = self.glue_cache.len();
        let mut i: usize = 0;
        let mut removed = false;
        while i < n && !removed
            invariant
                i <= n,
                n == orig.len(),
                old(self).wf(),
                orig == old(self).glue_cache@,
                skey == (
                    crate::fingerprint::chunks_view(chunks@),
                    match insert_new_lines {
                        Some(f) => Some(f@),
                        None => None,
                    },
                ),
                fingerprint == spec_glue_fingerprint(skey.0, skey.1),
                !removed ==> self.glue_cache@ == orig,
                !removed ==> forall|j: int| 0 <= j < i ==> (#[trigger] orig[j]).skey() != skey,
                removed ==> 0 < i <= n && orig[i - 1].skey() == skey && (forall|j: int|
                    0 <= j < i - 1 ==> (#[trigger] orig[j]).skey() != skey)
                    && self.glue_cache@ == orig.remove(i - 1),
                self.default_analyze_options == old(self).default_analyze_options,
                self.re_word_rules@ == old(self).re_word_rules@,
                self.tokenize_cache@ == old(self).tokenize_cache@,
                self.analyze_cache@ == old(self).analyze_cache@,
                self.split_cache@ == old(self).split_cache@,
                self.glue_pair_cache@ == old(self).glue_pair_cache@,
                self.join_cache@ == old(self).join_cache@,
            decreases n - i,
        {
            let hit = self.glue_cache[i].matches(chunks, insert_new_lines, fingerprint);
            if hit {
                let _ = self.glue_cache.remove(i);
                removed = true;
            }
            i = i + 1;
        }
        proof {
            if removed {
                lemma_glue_find_at(orig, skey, i as int - 1);
                lemma_glue_remove(orig, self.glue_cache@, skey, i as int - 1);
            } else {
                lemma_glue_find_none(orig, skey);
                crate::cache::lemma_find_none_iff_absent(glue_kv(orig), skey);
                crate::cache::lemma_remove_absent(glue_kv(orig), skey);
            }
            assert forall|j: int| 0 <= j < self.glue_cache@.len() implies (
            #[trigger] self.glue_cache@[j]).wf() by {
                if removed {
                    if j < i - 1 {
                        assert(self.glue_cache@[j] == orig[j]);
                    } else {
                        assert(self.glue_cache@[j] == orig[j + 1]);
                    }
                }
            }
        }
        if self.glue_cache.len() >= GLUE_CACHE_CAPACITY {
            let ghost before_pop = self.glue_cache@;
            let _ = self.glue_cache.pop_back();
            proof {
                assert(glue_kv(self.glue_cache@) =~= glue_kv(before_pop).drop_last());
                assert forall|j: int| 0 <= j < self.glue_cache@.len() implies (
                #[trigger] self.glue_cache@[j]).wf() by {
                    assert(self.glue_cache@[j] == before_pop[j]);
                }
            }
        }
        let owned_chunks = chunk_slices_to_owned(chunks);
        let entry = GlueCacheEntry {
            fingerprint,
            chunks: owned_chunks,
            insert_new_lines: match insert_new_lines {
                Some(f) => Some(copy_bools(f)),
                None => None,
            },
            glued_text: glued_text.to_owned(),
            space_insertions: copy_bools(space_insertions),
        };
        proof {
            assert(entry.skey() == skey);
            assert(entry.wf());
        }
        self.glue_cache.push_front(entry);
        proof {
            let m = glue_kv(self.glue_cache@);
            let prev = self.glue_cache@.drop_first();
            assert forall|j: int| 0 <= j < m.len() implies m[j] == (seq![
                (skey, (glued_text@, space_insertions@)),
            ] + glue_kv(prev))[j] by {
                if j > 0 {
                    assert(self.glue_cache@[j] == prev[j - 1]);
                }
            }
            assert(m =~= seq![(skey, (glued_text@, space_insertions@))] + glue_kv(prev));
            assert forall|j: int| 0 <= j < self.glue_cache@.len() implies (
            #[trigger] self.glue_cache@[j]).wf() by {
                if j > 0 {
                    assert(self.glue_cache@[j] == prev[j - 1]);
                }
            }
        }
    }

    /// Looks up a glue pair decision: on a hit the entry moves to the
    /// front. A cached decision always honors the ASCII override.
    pub fn lookup_glue_pair_cache(&mut self, left: &str, right: &str) -> (r: Option<bool>)
        requires
            old(self).wf(),
        ensures
            final(self).wf(),
            final(self).glue_pair_model() == model_promote(
                old(self).glue_pair_model(),
                (left@, right@),
            ),
            match r {
                Some(value) => model_find(old(self).glue_pair_model(), (left@, right@)) == Some(
                    value,
                ) && (spec_ends_with_ascii_word(left@) ==> value),
                None => model_find(old(self).glue_pair_model(), (left@, right@)) is None,
            },
            final(self).tokenize_model() == old(self).tokenize_model(),
            final(self).analyze_model() == old(self).analyze_model(),
            final(self).split_model() == old(self).split_model(),
            final(self).glue_model() == old(self).glue_model(),
            final(self).join_model() == old(self).join_model(),
            final(self).spec_default_analyze_options() == old(self).spec_default_analyze_options(),
            final(self).re_rules() == old(self).re_rules(),
    {
        let ghost skey = (left@, right@);
        let n = self.glue_pair_cache.len();
        let mut i: usize = 0;
        while i < n
            invariant
                i <= n,
                n == self.glue_pair_cache@.len(),
                old(self).wf(),
                *self == *old(self),
                skey == (left@, right@),
                forall|j: int|
                    0 <= j < i ==> (#[trigger] self.glue_pair_cache@[j]).skey() != skey,
            decreases n - i,
        {
            let hit = self.glue_pair_cache[i].matches(left, right);
            if hit {
                proof {
                    lemma_glue_pair_find_at(self.glue_pair_cache@, skey, i as int);
                }
                let ghost orig = self.glue_pair_cache@;
                let entry = self.glue_pair_cache.remove(i).unwrap();
                let value = entry.insert_space;
                self.glue_pair_cache.push_front(entry);
                proof {
                    lemma_glue_pair_promote(orig, self.glue_pair_cache@, skey, i as int);
                    assert forall|j: int| 0 <= j < self.glue_pair_cache@.len() implies (
                    #[trigger] self.glue_pair_cache@[j]).wf() by {
                        if j > 0 {
                            assert(self.glue_pair_cache@[j] == orig.remove(i as int)[j - 1]);
                        }
                    }
                    assert(orig[i as int].left@ == left@);
                }
                return Some(value);
            }
            i = i + 1;
        }
        proof {
            lemma_glue_pair_find_none(self.glue_pair_cache@, skey);
        }
        None
    }

    /// Inserts a glue pair decision. The decision must honor the ASCII
    /// override: a left chunk ending in an ASCII letter or digit always
    /// receives a separator.
    pub fn insert_glue_pair_cache(&mut self, left: &str, right: &str, insert_space: bool)
        requires
            old(self).wf(),
            spec_ends_with_ascii_word(left@) ==> insert_space,
        ensures
            final(self).wf(),
            final(self).glue_pair_model() == model_insert(
                old(self).glue_pair_model(),
                (left@, right@),
                insert_space,
                GLUE_PAIR_CACHE_CAPACITY as int,
            ),
            final(self).tokenize_model() == old(self).tokenize_model(),
            final(self).analyze_model() == old(self).analyze_model(),
            final(self).split_model() == old(self).split_model(),
            final(self).glue_model() == old(self).glue_model(),
            final(self).join_model() == old(self).join_model(),
            final(self).spec_default_analyze_options() == old(self).spec_default_analyze_options(),
            final(self).re_rules() == old(self).re_rules(),
    {
        let ghost skey = (left@, right@);
        let ghost orig = self.glue_pair_cache@;
        let n = self.glue_pair_cache.len();
        let mut i: usize = 0;
        let mut removed = false;
        while i < n && !removed
            invariant
                i <= n,
                n == orig.len(),
                old(self).wf(),
                orig == old(self).glue_pair_cache@,
                skey == (left@, right@),
                !removed ==> self.glue_pair_cache@ == orig,
                !removed ==> forall|j: int| 0 <= j < i ==> (#[trigger] orig[j]).skey() != skey,
                removed ==> 0 < i <= n && orig[i - 1].skey() == skey && (forall|j: int|
                    0 <= j < i - 1 ==> (#[trigger] orig[j]).skey() != skey)
                    && self.glue_pair_cache@ == orig.remove(i - 1),
                self.default_analyze_options == old(self).default_analyze_options,
                self.re_word_rules@ == old(self).re_word_rules@,
                self.tokenize_cache@ == old(self).tokenize_cache@,
                self.analyze_cache@ == old(self).analyze_cache@,
                self.split_cache@ == old(self).split_cache@,
                self.glue_cache@ == old(self).glue_cache@,
                self.join_cache@ == old(self).join_cache@,
            decreases n - i,
        {
            let hit = self.glue_pair_cache[i].matches(left, right);
            if hit {
                let _ = self.glue_pair_cache.remove(i);
                removed = true;
            }
            i = i + 1;
        }
        proof {
            if removed {
                lemma_glue_pair_find_at(orig, skey, i as int - 1);
                lemma_glue_pair_remove(orig, self.glue_pair_cache@, skey, i as int - 1);
            } else {
                lemma_glue_pair_find_none(orig, skey);
                crate::cache::lemma_find_none_iff_absent(glue_pair_kv(orig), skey);
                crate::cache::lemma_remove_absent(glue_pair_kv(orig), skey);
            }
            assert forall|j: int| 0 <= j < self.glue_pair_cache@.len() implies (
            #[trigger] self.glue_pair_cache@[j]).wf() by {
                if removed {
                    if j < i - 1 {
                        assert(self.glue_pair_cache@[j] == orig[j]);
                    } else {
                        assert(self.glue_pair_cache@[j] == orig[j + 1]);
                    }
                }
            }
        }
        if self.glue_pair_cache.len() >= GLUE_PAIR_CACHE_CAPACITY {
            let ghost before_pop = self.glue_pair_cache@;
            let _ = self.glue_pair_cache.pop_back();
            proof {
                assert(glue_pair_kv(self.glue_pair_cache@) =~= glue_pair_kv(
                    before_pop,
                ).drop_last());
                assert forall|j: int| 0 <= j < self.glue_pair_cache@.len() implies (
                #[trigger] self.glue_pair_cache@[j]).wf() by {
                    assert(self.glue_pair_cache@[j] == before_pop[j]);
                }
            }
        }
        let entry = GluePairScoreCacheEntry {
            left: left.to_owned(),
            right: right.to_owned(),
            insert_space,
        };
        self.glue_pair_cache.push_front(entry);
        proof {
            let m = glue_pair_kv(self.glue_pair_cache@);
            let prev = self.glue_pair_cache@.drop_first();
            assert forall|j: int| 0 <= j < m.len() implies m[j] == (seq![(skey, insert_space)]
                + glue_pair_kv(prev))[j] by {
                if j > 0 {
                    assert(self.glue_pair_cache@[j] == prev[j - 1]);
                }
            }
            assert(m =~= seq![(skey, insert_space)] + glue_pair_kv(prev));
            assert forall|j: int| 0 <= j < self.glue_pair_cache@.len() implies (
            #[trigger] self.glue_pair_cache@[j]).wf() by {
                if j > 0 {
                    assert(self.glue_pair_cache@[j] == prev[j - 1]);
                }
            }
        }
    }

    /// Looks up a join render: on a hit the entry moves to the recent end
    /// of the cache and a copy of the cached text is returned.
    pub fn lookup_join_cache(&mut self, morphs: &[(&str, &str)], lm_search: bool) -> (r: Option<
        String,
    >)
        requires
            old(self).wf(),
        ensures
            final(self).wf(),
            final(self).join_model() == model_promote(
                old(self).join_model(),
                (lm_search, morphs_view(morphs@)),
            ),
            match r {
                Some(value) => model_find(
                    old(self).join_model(),
                    (lm_search, morphs_view(morphs@)),
                ) == Some(value@),
                None => model_find(old(self).join_model(), (lm_search, morphs_view(morphs@)))
                    is None,
            },
            final(self).tokenize_model() == old(self).tokenize_model(),
            final(self).analyze_model() == old(self).analyze_model(),
            final(self).split_model() == old(self).split_model(),
            final(self).glue_model() == old(self).glue_model(),
            final(self).glue_pair_model() == old(self).glue_pair_model(),
            final(self).spec_default_analyze_options() == old(self).spec_default_analyze_options(),
            final(self).re_rules() == old(self).re_rules(),
    {
        let ghost skey = (lm_search, morphs_view(morphs@));
        let n = self.join_cache.len();
        let mut k: usize = 0;
        while k < n
            invariant
                k <= n,
                n == self.join_cache@.len(),
                old(self).wf(),
                *self == *old(self),
                skey == (lm_search, morphs_view(morphs@)),
                forall|j: int|
                    0 <= j < k ==> (#[trigger] self.join_cache@.reverse()[j]).skey() != skey,
            decreases n - k,
        {
            let idx = n - 1 - k;
            let hit = self.join_cache[idx].matches(morphs, lm_search);
            proof {
                assert(self.join_cache@.reverse()[k as int] == self.join_cache@[idx as int]);
            }
            if hit {
                let ghost orig = self.join_cache@;
                let ghost rev = orig.reverse();
                proof {
                    lemma_join_find_at(rev, skey, k as int);
                }
                let entry = self.join_cache.remove(idx).unwrap();
                let output = entry.output.clone();
                self.join_cache.push_back(entry);
                proof {
                    lemma_reverse_remove(orig, idx as int);
                    lemma_reverse_push(orig.remove(idx as int), orig[idx as int]);
                    assert(self.join_cache@ == orig.remove(idx as int).push(orig[idx as int]));
                    assert(self.join_cache@.reverse() == seq![rev[k as int]] + rev.remove(
                        k as int,
                    ));
                    lemma_join_promote(
                        rev,
                        self.join_cache@.reverse(),
                        skey,
                        k as int,
                    );
                }
                return Some(output);
            }
            k = k + 1;
        }
        proof {
            assert forall|j: int| 0 <= j < self.join_cache@.reverse().len() implies (
            #[trigger] self.join_cache@.reverse()[j]).skey() != skey by {}
            lemma_join_find_none(self.join_cache@.reverse(), skey);
        }
        None
    }

    /// Inserts a join render: any duplicate entry for the same key is
    /// removed, the coldest entry is evicted at capacity, and the new entry
    /// goes to the recent end of the cache.
    pub fn insert_join_cache(&mut self, morphs: &[(&str, &str)], lm_search: bool, output: &str)
        requires
            old(self).wf(),
        ensures
            final(self).wf(),
            final(self).join_model() == model_insert(
                old(self).join_model(),
                (lm_search, morphs_view(morphs@)),
                output@,
                JOIN_CACHE_CAPACITY as int,
            ),
            final(self).tokenize_model() == old(self).tokenize_model(),
            final(self).analyze_model() == old(self).analyze_model(),
            final(self).split_model() == old(self).split_model(),
            final(self).glue_model() == old(self).glue_model(),
            final(self).glue_pair_model() == old(self).glue_pair_model(),
            final(self).spec_default_analyze_options() == old(self).spec_default_analyze_options(),
            final(self).re_rules() == old(self).re_rules(),
    {
        let ghost skey = (lm_search, morphs_view(morphs@));
        let ghost orig = self.join_cache@;
        let n = self.join_cache.len();
        let mut k: usize = 0;
        let mut removed = false;
        while k < n && !removed
            invariant
                k <= n,
                n == orig.len(),
                old(self).wf(),
                orig == old(self).join_cache@,
                skey == (lm_search, morphs_view(morphs@)),
                !removed ==> self.join_cache@ == orig,
                !removed ==> forall|j: int|
                    0 <= j < k ==> (#[trigger] orig.reverse()[j]).skey() != skey,
                removed ==> 0 < k <= n && orig.reverse()[k - 1].skey() == skey && (forall|j: int|
                    0 <= j < k - 1 ==> (#[trigger] orig.reverse()[j]).skey() != skey)
                    && self.join_cache@.reverse() == orig.reverse().remove(k - 1),
                self.default_analyze_options == old(self).default_analyze_options,
                self.re_word_rules@ == old(self).re_word_rules@,
                self.tokenize_cache@ == old(self).tokenize_cache@,
                self.analyze_cache@ == old(self).analyze_cache@,
                self.split_cache@ == old(self).split_cache@,
                self.glue_cache@ == old(self).glue_cache@,
                self.glue_pair_cache@ == old(self).glue_pair_cache@,
            decreases n - k,
        {
            let idx = n - 1 - k;
            let hit = self.join_cache[idx].matches(morphs, lm_search);
            proof {
                assert(orig.reverse()[k as int] == orig[idx as int]);
            }
            if hit {
                let _ = self.join_cache.remove(idx);
                removed = true;
                proof {
                    lemma_reverse_remove(orig, idx as int);
                }
            }
            k = k + 1;
        }
        let ghost rev = orig.reverse();
        proof {
            if removed {
                lemma_join_find_at(rev, skey, k as int - 1);
                lemma_join_remove(rev, self.join_cache@.reverse(), skey, k as int - 1);
            } else {
                assert forall|j: int| 0 <= j < rev.len() implies (#[trigger] rev[j]).skey()
                    != skey by {}
                lemma_join_find_none(rev, skey);
                crate::cache::lemma_find_none_iff_absent(join_kv_plain(rev), skey);
                crate::cache::lemma_remove_absent(join_kv_plain(rev), skey);
            }
        }
        if self.join_cache.len() >= JOIN_CACHE_CAPACITY {
            let ghost before_pop = self.join_cache@;
            let _ = self.join_cache.pop_front();
            proof {
                lemma_reverse_drop_first(before_pop);
                assert(join_kv_plain(self.join_cache@.reverse()) =~= join_kv_plain(
                    before_pop.reverse(),
                ).drop_last());
            }
        }
        let entry = JoinCacheEntry {
            lm_search,
            morphs: morphs_to_owned(morphs),
            output: output.to_owned(),
        };
        let ghost before_push = self.join_cache@;
        self.join_cache.push_back(entry);
        proof {
            lemma_reverse_push(before_push, self.join_cache@[self.join_cache@.len() - 1]);
            let m = join_kv_plain(self.join_cache@.reverse());
            let prev = self.join_cache@.reverse().drop_first();
            assert forall|j: int| 0 <= j < m.len() implies m[j] == (seq![(skey, output@)]
                + join_kv_plain(prev))[j] by {
                if j > 0 {
                    assert(self.join_cache@.reverse()[j] == prev[j - 1]);
                }
            }
            assert(m =~= seq![(skey, output@)] + join_kv_plain(prev));
            assert(prev =~= before_push.reverse());
        }
    }
}

/// Converts borrowed chunks into owned strings, preserving their contents.
fn chunk_slices_to_owned(chunks: &[&str]) -> (r: Vec<String>)
    ensures
        strings_view(r@) == crate::fingerprint::chunks_view(chunks@),
{
    let n = chunks.len();
    let mut out: Vec<String> = Vec::new();
    let mut i: usize = 0;
    while i < n
        invariant
            i <= n,
            n == chunks@.len(),
            out@.len() == i,
            forall|j: int|
                0 <= j < i ==> #[trigger] strings_view(out@)[j] == crate::fingerprint::chunks_view(
                    chunks@,
                )[j],
        decreases n - i,
    {
        let ghost prev = out@;
        out.push(chunks[i].to_owned());
        proof {
            assert forall|j: int| 0 <= j < i + 1 implies #[trigger] strings_view(out@)[j]
                == crate::fingerprint::chunks_view(chunks@)[j] by {
                if j < i {
                    assert(out@[j] == prev[j]);
                    assert(strings_view(prev)[j] == crate::fingerprint::chunks_view(chunks@)[j]);
                } else {
                    assert(out@[j]@ == chunks@[j]@);
                }
            }
        }
        i = i + 1;
    }
    proof {
        assert(strings_view(out@) =~= crate::fingerprint::chunks_view(chunks@));
    }
    out
}


/// The tag occurs among the registered rules' tags.
pub open spec fn tag_among(tags: Seq<Seq<char>>, tag: Seq<char>) -> bool {
    exists|t: int| 0 <= t < tags.len() && tag == tags[t]
}

/// One span found by the regex pretokenization rules: its character range
/// in the text, the matched surface form, and the rule's tag.
pub struct ReWordSpan {
    /// Character start offset.
    pub begin: usize,
    /// Character end offset.
    pub end: usize,
    /// The matched text.
    pub form: String,
    /// The tag of the rule that matched.
    pub tag: String,
}

/// The spec-level value of one pretokenization span.
pub struct SpanView {
    /// Character start offset.
    pub begin: int,
    /// Character end offset.
    pub end: int,
    /// The matched text.
    pub form: Seq<char>,
    /// The tag of the rule that matched.
    pub tag: Seq<char>,
}

/// The spec-level value of an executable span record.
pub open spec fn span_view(s: ReWordSpan) -> SpanView {
    SpanView { begin: s.begin as int, end: s.end as int, form: s.form@, tag: s.tag@ }
}

/// Some accepted span overlaps the half-open character range `[begin, end)`.
pub open spec fn overlaps_accepted(acc: Seq<SpanView>, begin: int, end: int) -> bool {
    exists|k: int| 0 <= k < acc.len() && begin < (#[trigger] acc[k]).end && acc[k].begin < end
}

/// Folds the match ranges of one rule into the accepted spans, from range
/// `ri` on: empty matches, matches whose character range is empty, and
/// matches overlapping an already-accepted span are skipped; the rest are
/// accepted in order with the rule's tag and the matched text.
pub open spec fn spec_accept_ranges(
    text: Seq<char>,
    ranges: Seq<(usize, usize)>,
    ri: int,
    tag: Seq<char>,
    acc: Seq<SpanView>,
) -> Seq<SpanView>
    decreases ranges.len() - ri,
{
    if ri < 0 || ri >= ranges.len() {
        acc
    } else {
        let bs = ranges[ri].0;
        let be = ranges[ri].1;
        if bs == be {
            spec_accept_ranges(text, ranges, ri + 1, tag, acc)
        } else {
            let begin = crate::chars::spec_byte_to_char(text, bs as int);
            let end = crate::chars::spec_byte_to_char(text, be as int);
            if begin >= end || overlaps_accepted(acc, begin, end) {
                spec_accept_ranges(text, ranges, ri + 1, tag, acc)
            } else {
                spec_accept_ranges(
                    text,
                    ranges,
                    ri + 1,
                    tag,
                    acc.push(
                        SpanView { begin, end, form: text.subrange(begin, end), tag },
                    ),
                )
            }
        }
    }
}

/// The accepted spans of the rules from index `r` on, given the spans the
/// earlier rules already accepted: first-rule-wins over the named regex
/// match set of each rule's pattern.
pub open spec fn spec_re_word_spans_from(
    text: Seq<char>,
    rules: Seq<ReWordRule>,
    r: int,
    acc: Seq<SpanView>,
) -> Seq<SpanView>
    decreases rules.len() - r,
{
    if r < 0 || r >= rules.len() {
        acc
    } else {
        spec_re_word_spans_from(
            text,
            rules,
            r + 1,
            spec_accept_ranges(
                text,
                regex_match_ranges(rules[r].spec_source(), text),
                0,
                rules[r].spec_tag(),
                acc,
            ),
        )
    }
}

/// The pretokenization spans of the registered rules on `text`.
pub open spec fn spec_re_word_spans(text: Seq<char>, rules: Seq<ReWordRule>) -> Seq<SpanView> {
    spec_re_word_spans_from(text, rules, 0, Seq::empty())
}

/// The ordered chunk pairs at each boundary of a glue request.
pub open spec fn boundary_keys(chunks: Seq<Seq<char>>) -> Seq<(Seq<char>, Seq<char>)> {
    Seq::new(
        if chunks.len() >= 1 {
            (chunks.len() - 1) as nat
        } else {
            0
        },
        |i: int| (chunks[i], chunks[i + 1]),
    )
}

/// The pair-cache entries a finished glue request stores, oldest first:
/// each unresolved boundary's ordered chunk pair, mapped to its separator
/// decision.
pub open spec fn glue_pair_kvs(
    chunks: Seq<String>,
    missing: Seq<usize>,
    scores: Seq<bool>,
) -> Seq<((Seq<char>, Seq<char>), bool)> {
    Seq::new(
        missing.len(),
        |k: int|
            (
                (chunks[missing[k] as int]@, chunks[missing[k] as int + 1]@),
                crate::glue::spec_glue_decision(scores[k], chunks[missing[k] as int]@),
            ),
    )
}

/// Boundary index `i` is one of the still-unscored boundaries.
pub open spec fn in_missing(missing: Seq<usize>, i: int) -> bool {
    exists|k: int| 0 <= k < missing.len() && missing[k] == i
}

/// A glue request that still needs language-model scores for some chunk
/// boundaries: the trimmed chunks, the decisions already resolved from the
/// pair cache, the unresolved boundary indices, and the two candidate
/// renderings per unresolved boundary, in scoring order.
pub struct GluePending {
    /// Trimmed chunks of the request.
    pub chunks: Vec<String>,
    /// Newline flags of the request, if given.
    pub insert_new_lines: Option<Vec<bool>>,
    /// Per-boundary decisions; unresolved slots hold `false` until scored.
    pub space_insertions: Vec<bool>,
    /// Boundary indices still needing scores, ascending.
    pub missing: Vec<usize>,
    /// Two candidate renderings per unresolved boundary: the pair joined
    /// with a space, then the pair joined directly.
    pub candidates: Vec<String>,
}

impl GluePending {
    /// Shape and coherence of a pending glue request.
    pub open spec fn wf(self) -> bool {
        &&& self.chunks@.len() >= 2
        &&& self.space_insertions@.len() == self.chunks@.len() - 1
        &&& (match self.insert_new_lines {
            Some(f) => f@.len() == self.chunks@.len() - 1,
            None => true,
        })
        &&& self.missing@.len() >= 1
        &&& forall|a: int, b: int|
            0 <= a < b < self.missing@.len() ==> self.missing@[a] < self.missing@[b]
        &&& forall|k: int|
            0 <= k < self.missing@.len() ==> (#[trigger] self.missing@[k]) < self.chunks@.len() - 1
        &&& self.candidates@.len() == 2 * self.missing@.len()
        &&& forall|k: int|
            0 <= k < self.missing@.len() ==> (#[trigger] self.candidates@[2 * k])@
                == self.chunks@[self.missing@[k] as int]@ + seq![' '] + self.chunks@[self.missing@[
                k
            ] as int + 1]@
        &&& forall|k: int|
            0 <= k < self.missing@.len() ==> (#[trigger] self.candidates@[2 * k + 1])@
                == self.chunks@[self.missing@[k] as int]@ + self.chunks@[self.missing@[k] as int
                + 1]@
        &&& forall|i: int|
            0 <= i < self.space_insertions@.len() && !in_missing(self.missing@, i)
                && spec_ends_with_ascii_word((#[trigger] self.chunks@[i])@)
                ==> self.space_insertions@[i]
    }
}

/// The outcome of preparing a glue request: either the finished text with
/// its per-boundary decisions, or the pending state whose candidates must
/// be scored first.
pub enum GlueStep {
    /// The glue request is complete.
    Done(String, Vec<bool>),
    /// Some boundaries still need language-model scores.
    NeedScores(GluePending),
}

/// The trimmed character sequences of a chunk slice.
pub open spec fn trimmed_views(chunks: Seq<&str>) -> Seq<Seq<char>> {
    chunks.map_values(|c: &str| crate::chars::spec_trim(c@))
}

/// Borrows each chunk of an owned chunk vector.
fn as_str_refs<'a>(v: &'a Vec<String>) -> (r: Vec<&'a str>)
    ensures
        crate::fingerprint::chunks_view(r@) == strings_view(v@),
{
    let n = v.len();
    let mut out: Vec<&str> = Vec::new();
    let mut i: usize = 0;
    while i < n
        invariant
            i <= n,
            n == v@.len(),
            out@.len() == i,
            forall|j: int|
                0 <= j < i ==> #[trigger] crate::fingerprint::chunks_view(out@)[j] == strings_view(
                    v@,
                )[j],
        decreases n - i,
    {
        let ghost prev = out@;
        out.push(v[i].as_str());
        proof {
            assert forall|j: int| 0 <= j < i + 1 implies #[trigger] crate::fingerprint::chunks_view(
                out@,
            )[j] == strings_view(v@)[j] by {
                if j < i {
                    assert(out@[j] == prev[j]);
                    assert(crate::fingerprint::chunks_view(prev)[j] == strings_view(v@)[j]);
                }
            }
        }
        i = i + 1;
    }
    proof {
        assert(crate::fingerprint::chunks_view(out@) =~= strings_view(v@));
    }
    out
}

impl Kiwi {
    /// Adds a regex pretokenization rule: matches of `pattern` are handed
    /// to the analyzer as pre-analyzed spans tagged `tag`. Exactly the
    /// patterns the regex engine compiles are accepted; an invalid pattern
    /// is rejected and leaves the state unchanged, and a successful
    /// addition appends one rule and clears the analyzer-output caches.
    pub fn add_re_word(&mut self, pattern: &str, tag: &str) -> (r: crate::error::Result<()>)
        requires
            old(self).wf(),
        ensures
            final(self).wf(),
            r is Ok <==> crate::rewords::regex_compiles(pattern@),
            match r {
                Ok(()) => {
                    &&& final(self).re_rule_tags() == old(self).re_rule_tags().push(tag@)
                    &&& final(self).re_rule_sources() == old(self).re_rule_sources().push(pattern@)
                    &&& Self::spec_invalidated(*old(self), *final(self))
                    &&& final(self).spec_default_analyze_options() == old(
                        self,
                    ).spec_default_analyze_options()
                },
                Err(e) => e is InvalidArgument && *final(self) == *old(self),
            },
    {
        match ReWordRule::new(pattern, tag) {
            Ok(rule) => {
                let ghost before = self.re_word_rules@;
                self.re_word_rules.push(rule);
                proof {
                    assert(self.re_rule_tags() =~= self.re_rules().map_values(
                        |r: ReWordRule| r.spec_tag(),
                    ));
                    assert(self.re_rule_tags() =~= before.map_values(
                        |r: ReWordRule| r.spec_tag(),
                    ).push(tag@));
                    assert(self.re_rule_sources() =~= before.map_values(
                        |r: ReWordRule| r.spec_source(),
                    ).push(pattern@));
                }
                self.clear_inference_caches();
                Ok(())
            },
            Err(error) => {
                let message = crate::rewords::regex_error_message(&error);
                Err(
                    crate::error::KiwiError::InvalidArgument(
                        String::from_str("invalid regex pattern for add_re_word: ").concat(
                            message.as_str(),
                        ),
                    ),
                )
            },
        }
    }

    /// Removes all regex pretokenization rules and clears the
    /// analyzer-output caches.
    pub fn clear_re_words(&mut self)
        requires
            old(self).wf(),
        ensures
            final(self).wf(),
            final(self).re_rules() == Seq::<ReWordRule>::empty(),
            Self::spec_invalidated(*old(self), *final(self)),
            final(self).spec_default_analyze_options() == old(
                self,
            ).spec_default_analyze_options(),
    {
        self.re_word_rules.clear();
        self.clear_inference_caches();
    }

    /// Computes the pretokenization spans of the registered regex rules on
    /// `text`: for each rule in order, each nonempty match that does not
    /// overlap an already-accepted span becomes a span with that rule's
    /// tag. The result is exactly the first-rule-wins selection over each
    /// rule's regex match set; the spans are pairwise non-overlapping, lie
    /// within the text, and carry the exact matched text.
    pub fn compute_re_word_spans(&self, text: &str) -> (spans: Vec<ReWordSpan>)
        ensures
            spans@.map_values(|s: ReWordSpan| span_view(s)) == spec_re_word_spans(
                text@,
                self.re_rules(),
            ),
            forall|k: int|
                0 <= k < spans@.len() ==> (#[trigger] spans@[k]).begin < spans@[k].end
                    && spans@[k].end <= text@.len(),
            forall|k1: int, k2: int|
                0 <= k1 < k2 < spans@.len() ==> !crate::chars::spec_ranges_overlap(
                    (#[trigger] spans@[k1]).begin,
                    spans@[k1].end,
                    (#[trigger] spans@[k2]).begin,
                    spans@[k2].end,
                ),
            forall|k: int|
                0 <= k < spans@.len() ==> (#[trigger] spans@[k]).form@ == text@.subrange(
                    spans@[k].begin as int,
                    spans@[k].end as int,
                ),
            forall|k: int|
                0 <= k < spans@.len() ==> tag_among(
                    self.re_rule_tags(),
                    (#[trigger] spans@[k]).tag@,
                ),
            self.re_rule_tags().len() == 0 ==> spans@.len() == 0,
    {
        let map = crate::chars::build_char_to_byte_map(text);
        let mut spans: Vec<ReWordSpan> = Vec::new();
        let ghost mut tag_srcs: Seq<int> = Seq::empty();
        let ghost goal = spec_re_word_spans(text@, self.re_rules());
        let rule_count = self.re_word_rules.len();
        let mut rule_idx: usize = 0;
        proof {
            assert(spans@.map_values(|s: ReWordSpan| span_view(s)) =~= Seq::<SpanView>::empty());
        }
        while rule_idx < rule_count
            invariant
                rule_idx <= rule_count,
                rule_count == self.re_rules().len(),
                crate::chars::is_char_byte_map(map@, text@),
                goal == spec_re_word_spans(text@, self.re_rules()),
                goal == spec_re_word_spans_from(
                    text@,
                    self.re_rules(),
                    rule_idx as int,
                    spans@.map_values(|s: ReWordSpan| span_view(s)),
                ),
                forall|k: int|
                    0 <= k < spans@.len() ==> (#[trigger] spans@[k]).begin < spans@[k].end
                        && spans@[k].end <= text@.len(),
                forall|k1: int, k2: int|
                    0 <= k1 < k2 < spans@.len() ==> !crate::chars::spec_ranges_overlap(
                        (#[trigger] spans@[k1]).begin,
                        spans@[k1].end,
                        (#[trigger] spans@[k2]).begin,
                        spans@[k2].end,
                    ),
                forall|k: int|
                    0 <= k < spans@.len() ==> (#[trigger] spans@[k]).form@ == text@.subrange(
                        spans@[k].begin as int,
                        spans@[k].end as int,
                    ),
                tag_srcs.len() == spans@.len(),
                forall|k: int| 0 <= k < spans@.len() ==> 0 <= #[trigger] tag_srcs[k] < rule_count,
                forall|k: int|
                    0 <= k < spans@.len() ==> (#[trigger] spans@[k]).tag@ == self.re_rule_tags()[
                        tag_srcs[k]
                    ],
            decreases rule_count - rule_idx,
        {
            let rule = &self.re_word_rules[rule_idx];
            let ranges = rule.find_ranges(text);
            let ghost rule_tag = rule.spec_tag();
            let range_count = ranges.len();
            let mut ri: usize = 0;
            while ri < range_count
                invariant
                    ri <= range_count,
                    range_count == ranges@.len(),
                    rule_idx < rule_count,
                    rule_count == self.re_rules().len(),
                    crate::chars::is_char_byte_map(map@, text@),
                    rule_tag == self.re_rules()[rule_idx as int].spec_tag(),
                    ranges@ == regex_match_ranges(
                        self.re_rules()[rule_idx as int].spec_source(),
                        text@,
                    ),
                    goal == spec_re_word_spans(text@, self.re_rules()),
                    goal == spec_re_word_spans_from(
                        text@,
                        self.re_rules(),
                        rule_idx as int + 1,
                        spec_accept_ranges(
                            text@,
                            ranges@,
                            ri as int,
                            rule_tag,
                            spans@.map_values(|s: ReWordSpan| span_view(s)),
                        ),
                    ),
                    forall|k: int|
                        0 <= k < spans@.len() ==> (#[trigger] spans@[k]).begin < spans@[k].end
                            && spans@[k].end <= text@.len(),
                    forall|k1: int, k2: int|
                        0 <= k1 < k2 < spans@.len() ==> !crate::chars::spec_ranges_overlap(
                            (#[trigger] spans@[k1]).begin,
                            spans@[k1].end,
                            (#[trigger] spans@[k2]).begin,
                            spans@[k2].end,
                        ),
                    forall|k: int|
                        0 <= k < spans@.len() ==> (#[trigger] spans@[k]).form@ == text@.subrange(
                            spans@[k].begin as int,
                            spans@[k].end as int,
                        ),
                    tag_srcs.len() == spans@.len(),
                    forall|k: int|
                        0 <= k < spans@.len() ==> 0 <= #[trigger] tag_srcs[k] < rule_count,
                    forall|k: int|
                        0 <= k < spans@.len() ==> (#[trigger] spans@[k]).tag@
                            == self.re_rule_tags()[tag_srcs[k]],
                decreases range_count - ri,
            {
                let ghost pre_view = spans@.map_values(|s: ReWordSpan| span_view(s));
                let (byte_start, byte_end) = ranges[ri];
                if byte_start != byte_end {
                    let begin = crate::chars::byte_to_char_index(text, byte_start);
                    let end = crate::chars::byte_to_char_index(text, byte_end);
                    if begin < end {
                        let span_count = spans.len();
                        let mut overlaps = false;
                        let mut si: usize = 0;
                        while si < span_count
                            invariant
                                si <= span_count,
                                span_count == spans@.len(),
                                pre_view == spans@.map_values(|s: ReWordSpan| span_view(s)),
                                !overlaps ==> forall|k: int|
                                    0 <= k < si ==> !crate::chars::spec_ranges_overlap(
                                        begin,
                                        end,
                                        (#[trigger] spans@[k]).begin,
                                        spans@[k].end,
                                    ),
                                overlaps ==> overlaps_accepted(pre_view, begin as int, end as int),
                            decreases span_count - si,
                        {
                            if crate::chars::ranges_overlap(
                                begin,
                                end,
                                spans[si].begin,
                                spans[si].end,
                            ) {
                                proof {
                                    assert(pre_view[si as int] == span_view(spans@[si as int]));
                                }
                                overlaps = true;
                            }
                            si = si + 1;
                        }
                        proof {
                            if !overlaps {
                                assert(!overlaps_accepted(pre_view, begin as int, end as int)) by {
                                    if overlaps_accepted(pre_view, begin as int, end as int) {
                                        let k = choose|k: int|
                                            0 <= k < pre_view.len() && begin
                                                < (#[trigger] pre_view[k]).end && pre_view[k].begin
                                                < end;
                                        assert(pre_view[k] == span_view(spans@[k]));
                                        assert(crate::chars::spec_ranges_overlap(
                                            begin,
                                            end,
                                            spans@[k].begin,
                                            spans@[k].end,
                                        ));
                                    }
                                }
                            }
                        }
                        if !overlaps {
                            let form = crate::chars::slice_char_range(
                                text,
                                map.as_slice(),
                                begin,
                                end,
                            );
                            let span = ReWordSpan {
                                begin,
                                end,
                                form: form.to_owned(),
                                tag: self.re_word_rules[rule_idx].tag().clone(),
                            };
                            proof {
                                assert(span.tag@ == self.re_rule_tags()[rule_idx as int]);
                                tag_srcs = tag_srcs.push(rule_idx as int);
                            }
                            spans.push(span);
                            proof {
                                assert(span_view(span).form =~= text@.subrange(
                                    begin as int,
                                    end as int,
                                ));
                                assert(spans@.map_values(|s: ReWordSpan| span_view(s))
                                    =~= pre_view.push(span_view(span)));
                            }
                        }
                    }
                }
                ri = ri + 1;
            }
            rule_idx = rule_idx + 1;
        }
        proof {
            assert(self.re_rule_tags().len() == rule_count);
            assert(tag_srcs.len() == spans@.len());
            assert(forall|k: int|
                0 <= k < spans@.len() ==> 0 <= #[trigger] tag_srcs[k] < rule_count);
            if rule_count == 0 {
                assert(spans@.len() == 0) by {
                    if spans@.len() > 0 {
                        assert(0 <= tag_srcs[0] < rule_count);
                    }
                }
            }
            assert forall|k: int| 0 <= k < spans@.len() implies tag_among(
                self.re_rule_tags(),
                (#[trigger] spans@[k]).tag@,
            ) by {
                assert(0 <= tag_srcs[k] < rule_count);
                assert(spans@[k].tag@ == self.re_rule_tags()[tag_srcs[k]]);
            }
        }
        spans
    }

    /// Prepares a glue request: trims the chunks, validates the newline
    /// flags, consults the whole-result cache and the pair cache, and
    /// either finishes the request outright or returns the pending state
    /// whose candidate renderings must be scored by the analyzer.
    pub fn glue_prepare(&mut self, text_chunks: &[&str], insert_new_lines: Option<&[bool]>) -> (r:
        crate::error::Result<GlueStep>)
        requires
            old(self).wf(),
        ensures
            final(self).wf(),
            final(self).tokenize_model() == old(self).tokenize_model(),
            final(self).analyze_model() == old(self).analyze_model(),
            final(self).split_model() == old(self).split_model(),
            final(self).join_model() == old(self).join_model(),
            final(self).spec_default_analyze_options() == old(
                self,
            ).spec_default_analyze_options(),
            final(self).re_rules() == old(self).re_rules(),
            match r {
                Err(e) => {
                    &&& e is InvalidArgument
                    &&& text_chunks@.len() >= 1
                    &&& (insert_new_lines matches Some(f) && f@.len() != text_chunks@.len() - 1)
                    &&& *final(self) == *old(self)
                },
                Ok(GlueStep::Done(text, insertions)) => {
                    &&& (match insert_new_lines {
                        Some(f) => text_chunks@.len() >= 1 ==> f@.len() == text_chunks@.len() - 1,
                        None => true,
                    })
                    &&& (text_chunks@.len() == 0 ==> text@.len() == 0 && insertions@.len() == 0)
                    &&& (text_chunks@.len() >= 1 ==> {
                        &&& insertions@.len() == text_chunks@.len() - 1
                        &&& text@ == spec_glued_text(
                            trimmed_views(text_chunks@),
                            insertions@,
                            match insert_new_lines {
                                Some(f) => Some(f@),
                                None => None,
                            },
                        )
                        &&& forall|b: int|
                            0 <= b < insertions@.len() && spec_ends_with_ascii_word(
                                #[trigger] trimmed_views(text_chunks@)[b],
                            ) ==> insertions@[b]
                    })
                },
                Ok(GlueStep::NeedScores(p)) => {
                    &&& p.wf()
                    &&& strings_view(p.chunks@) == trimmed_views(text_chunks@)
                    &&& newlines_view(p.insert_new_lines) == (match insert_new_lines {
                        Some(f) => Some(f@),
                        None => None,
                    })
                    &&& text_chunks@.len() >= 2
                },
            },
            text_chunks@.len() == 0 && !(r is Err) ==> *final(self) == *old(self),
            (!(r is Err) && text_chunks@.len() >= 1) ==> ({
                let key = (
                    trimmed_views(text_chunks@),
                    match insert_new_lines {
                        Some(f) => Some(f@),
                        None => None,
                    },
                );
                match model_find(old(self).glue_model(), key) {
                    Some(v) => {
                        &&& final(self).glue_model() == model_promote(
                            old(self).glue_model(),
                            key,
                        )
                        &&& final(self).glue_pair_model() == old(self).glue_pair_model()
                        &&& (r matches Ok(GlueStep::Done(t, ins)) && (t@, ins@) == v)
                    },
                    None => {
                        &&& final(self).glue_pair_model() == crate::cache::model_promote_all(
                            old(self).glue_pair_model(),
                            boundary_keys(trimmed_views(text_chunks@)),
                        )
                        &&& (match r {
                            Ok(GlueStep::Done(t, ins)) => final(self).glue_model()
                                == model_insert(
                                old(self).glue_model(),
                                key,
                                (t@, ins@),
                                GLUE_CACHE_CAPACITY as int,
                            ),
                            Ok(GlueStep::NeedScores(_)) => final(self).glue_model() == old(
                                self,
                            ).glue_model(),
                            Err(_) => true,
                        })
                    },
                }
            }),
    {
        if text_chunks.len() == 0 {
            let empty_insertions: Vec<bool> = Vec::new();
            return Ok(GlueStep::Done(String::new(), empty_insertions));
        }
        let chunks = crate::glue::trim_chunks(text_chunks);
        match insert_new_lines {
            Some(flags) => {
                if flags.len() != chunks.len() - 1 {
                    return Err(
                        crate::error::KiwiError::InvalidArgument(
                            String::from_str(
                                "insert_new_lines length must be one less than the chunk count",
                            ),
                        ),
                    );
                }
            },
            None => {},
        }
        let refs = as_str_refs(&chunks);
        proof {
            assert(crate::fingerprint::chunks_view(refs@) =~= trimmed_views(text_chunks@));
        }
        let cached = self.lookup_glue_cache(refs.as_slice(), insert_new_lines);
        match cached {
            Some((text, insertions)) => {
                return Ok(GlueStep::Done(text, insertions));
            },
            None => {},
        }
        let ghost bkeys = boundary_keys(trimmed_views(text_chunks@));
        proof {
            assert(bkeys.take(0) =~= Seq::<(Seq<char>, Seq<char>)>::empty());
        }
        let join_count = chunks.len() - 1;
        let mut insertions: Vec<bool> = Vec::new();
        let mut missing: Vec<usize> = Vec::new();
        let mut candidates: Vec<String> = Vec::new();
        let mut index: usize = 0;
        while index < join_count
            invariant
                index <= join_count,
                join_count == chunks@.len() - 1,
                chunks@.len() >= 1,
                self.wf(),
                old(self).wf(),
                insertions@.len() == index,
                strings_view(chunks@) == trimmed_views(text_chunks@),
                missing@.len() <= index,
                forall|a: int, b: int|
                    0 <= a < b < missing@.len() ==> missing@[a] < missing@[b],
                forall|k: int|
                    0 <= k < missing@.len() ==> (#[trigger] missing@[k]) < index,
                candidates@.len() == 2 * missing@.len(),
                forall|k: int|
                    0 <= k < missing@.len() ==> (#[trigger] candidates@[2 * k])@
                        == chunks@[missing@[k] as int]@ + seq![' '] + chunks@[missing@[
                        k
                    ] as int + 1]@,
                forall|k: int|
                    0 <= k < missing@.len() ==> (#[trigger] candidates@[2 * k + 1])@
                        == chunks@[missing@[k] as int]@ + chunks@[missing@[k] as int + 1]@,
                forall|i: int|
                    0 <= i < index && !in_missing(missing@, i) && spec_ends_with_ascii_word(
                        (#[trigger] chunks@[i])@,
                    ) ==> insertions@[i],
                bkeys == boundary_keys(trimmed_views(text_chunks@)),
                bkeys.len() == join_count,
                self.glue_model() == old(self).glue_model(),
                self.glue_pair_model() == crate::cache::model_promote_all(
                    old(self).glue_pair_model(),
                    bkeys.take(index as int),
                ),
                self.tokenize_model() == old(self).tokenize_model(),
                self.analyze_model() == old(self).analyze_model(),
                self.split_model() == old(self).split_model(),
                self.join_model() == old(self).join_model(),
                self.spec_default_analyze_options() == old(self).spec_default_analyze_options(),
                self.re_rules() == old(self).re_rules(),
            decreases join_count - index,
        {
            let left = chunks[index].as_str();
            let right = chunks[index + 1].as_str();
            let ghost prev_missing = missing@;
            let ghost prev_insertions = insertions@;
            let resolved = self.lookup_glue_pair_cache(left, right);
            proof {
                crate::cache::lemma_promote_all_snoc(
                    old(self).glue_pair_model(),
                    bkeys.take(index as int + 1),
                );
                assert(bkeys.take(index as int + 1).drop_last() =~= bkeys.take(index as int));
                assert(bkeys.take(index as int + 1).last() == bkeys[index as int]);
                assert(bkeys[index as int] == (chunks@[index as int]@, chunks@[index as int + 1]@));
            }
            match resolved {
                Some(decision) => {
                    insertions.push(decision);
                    proof {
                        assert forall|i: int|
                            0 <= i < index + 1 && !in_missing(missing@, i)
                                && spec_ends_with_ascii_word(
                                (#[trigger] chunks@[i])@,
                            ) implies insertions@[i] by {
                            if i < index {
                                assert(insertions@[i] == prev_insertions[i]);
                            } else {
                                assert(chunks@[index as int]@ == left@);
                            }
                        }
                    }
                },
                None => {
                    let (with_space, without_space) = crate::glue::glue_pair_candidates(
                        left,
                        right,
                    );
                    let ghost prev_candidates = candidates@;
                    candidates.push(with_space);
                    candidates.push(without_space);
                    missing.push(index);
                    insertions.push(false);
                    proof {
                        assert forall|k: int|
                            0 <= k < missing@.len() implies (#[trigger] candidates@[2 * k])@
                            == chunks@[missing@[k] as int]@ + seq![' '] + chunks@[missing@[
                            k
                        ] as int + 1]@ by {
                            if k < prev_missing.len() {
                                assert(candidates@[2 * k] == prev_candidates[2 * k]);
                                assert(missing@[k] == prev_missing[k]);
                            }
                        }
                        assert forall|k: int|
                            0 <= k < missing@.len() implies (#[trigger] candidates@[2 * k + 1])@
                            == chunks@[missing@[k] as int]@ + chunks@[missing@[k] as int + 1]@ by {
                            if k < prev_missing.len() {
                                assert(candidates@[2 * k + 1] == prev_candidates[2 * k + 1]);
                                assert(missing@[k] == prev_missing[k]);
                            }
                        }
                        assert forall|i: int|
                            0 <= i < index + 1 && !in_missing(missing@, i)
                                && spec_ends_with_ascii_word(
                                (#[trigger] chunks@[i])@,
                            ) implies insertions@[i] by {
                            if i < index {
                                if in_missing(prev_missing, i) {
                                    let k = choose|k: int|
                                        0 <= k < prev_missing.len() && prev_missing[k] == i;
                                    assert(missing@[k] == i);
                                } else {
                                    assert(insertions@[i] == prev_insertions[i]);
                                }
                            } else {
                                assert(missing@[missing@.len() - 1] == i);
                            }
                        }
                    }
                },
            }
            index = index + 1;
        }
        proof {
            assert(bkeys.take(join_count as int) =~= bkeys);
        }
        if missing.len() == 0 {
            let nl_owned: Option<Vec<bool>> = match insert_new_lines {
                Some(f) => Some(copy_bools(f)),
                None => None,
            };
            let text = crate::glue::assemble_glued(&chunks, &insertions, nl_owned.as_ref());
            self.insert_glue_cache(
                refs.as_slice(),
                insert_new_lines,
                text.as_str(),
                insertions.as_slice(),
            );
            return Ok(GlueStep::Done(text, insertions));
        }
        let nl_owned: Option<Vec<bool>> = match insert_new_lines {
            Some(f) => Some(copy_bools(f)),
            None => None,
        };
        Ok(
            GlueStep::NeedScores(
                GluePending {
                    chunks,
                    insert_new_lines: nl_owned,
                    space_insertions: insertions,
                    missing,
                    candidates,
                },
            ),
        )
    }

    /// Finishes a pending glue request with the score comparisons of its
    /// candidate renderings: boundary `missing[k]` receives a separator
    /// when the spaced rendering scored at least as well as the unspaced
    /// one, or unconditionally when its left chunk ends in an ASCII letter
    /// or digit. The decisions are cached per pair and the assembled result
    /// is cached for the whole request.
    pub fn glue_finish(&mut self, pending: GluePending, score_with_space_ge: &[bool]) -> (r: (
        String,
        Vec<bool>,
    ))
        requires
            old(self).wf(),
            pending.wf(),
            score_with_space_ge@.len() == pending.missing@.len(),
        ensures
            final(self).wf(),
            final(self).tokenize_model() == old(self).tokenize_model(),
            final(self).analyze_model() == old(self).analyze_model(),
            final(self).split_model() == old(self).split_model(),
            final(self).join_model() == old(self).join_model(),
            final(self).spec_default_analyze_options() == old(
                self,
            ).spec_default_analyze_options(),
            final(self).re_rules() == old(self).re_rules(),
            final(self).glue_pair_model() == crate::cache::model_insert_all(
                old(self).glue_pair_model(),
                glue_pair_kvs(pending.chunks@, pending.missing@, score_with_space_ge@),
                GLUE_PAIR_CACHE_CAPACITY as int,
            ),
            final(self).glue_model() == model_insert(
                old(self).glue_model(),
                (strings_view(pending.chunks@), newlines_view(pending.insert_new_lines)),
                (r.0@, r.1@),
                GLUE_CACHE_CAPACITY as int,
            ),
            r.1@.len() == pending.chunks@.len() - 1,
            r.0@ == spec_glued_text(
                strings_view(pending.chunks@),
                r.1@,
                newlines_view(pending.insert_new_lines),
            ),
            forall|k: int|
                0 <= k < pending.missing@.len() ==> r.1@[pending.missing@[k] as int]
                    == crate::glue::spec_glue_decision(
                    score_with_space_ge@[k],
                    (#[trigger] pending.chunks@[pending.missing@[k] as int])@,
                ),
            forall|i: int|
                0 <= i < r.1@.len() && !in_missing(pending.missing@, i) ==> r.1@[i]
                    == pending.space_insertions@[i],
            forall|i: int|
                0 <= i < r.1@.len() && spec_ends_with_ascii_word((#[trigger] pending.chunks@[i])@)
                    ==> r.1@[i],
    {
        let join_count = pending.chunks.len() - 1;
        let missing_count = pending.missing.len();
        let ghost pair_kvs = glue_pair_kvs(
            pending.chunks@,
            pending.missing@,
            score_with_space_ge@,
        );
        let mut insertions: Vec<bool> = Vec::new();
        let mut next_missing: usize = 0;
        let mut i: usize = 0;
        proof {
            assert(pair_kvs.take(0) =~= Seq::<((Seq<char>, Seq<char>), bool)>::empty());
        }
        while i < join_count
            invariant
                i <= join_count,
                join_count == pending.chunks@.len() - 1,
                pending.wf(),
                old(self).wf(),
                self.wf(),
                missing_count == pending.missing@.len(),
                score_with_space_ge@.len() == pending.missing@.len(),
                next_missing <= missing_count,
                insertions@.len() == i,
                forall|k: int|
                    0 <= k < next_missing ==> (#[trigger] pending.missing@[k]) < i,
                forall|k: int|
                    next_missing <= k < missing_count ==> i <= (#[trigger] pending.missing@[k]),
                forall|k: int|
                    0 <= k < next_missing ==> insertions@[pending.missing@[k] as int]
                        == crate::glue::spec_glue_decision(
                        score_with_space_ge@[k],
                        (#[trigger] pending.chunks@[pending.missing@[k] as int])@,
                    ),
                forall|b: int|
                    0 <= b < i && !in_missing(pending.missing@, b) ==> insertions@[b]
                        == pending.space_insertions@[b],
                forall|b: int|
                    0 <= b < i && spec_ends_with_ascii_word((#[trigger] pending.chunks@[b])@)
                        ==> insertions@[b],
                pair_kvs == glue_pair_kvs(
                    pending.chunks@,
                    pending.missing@,
                    score_with_space_ge@,
                ),
                self.glue_model() == old(self).glue_model(),
                self.glue_pair_model() == crate::cache::model_insert_all(
                    old(self).glue_pair_model(),
                    pair_kvs.take(next_missing as int),
                    GLUE_PAIR_CACHE_CAPACITY as int,
                ),
                self.tokenize_model() == old(self).tokenize_model(),
                self.analyze_model() == old(self).analyze_model(),
                self.split_model() == old(self).split_model(),
                self.join_model() == old(self).join_model(),
                self.spec_default_analyze_options() == old(self).spec_default_analyze_options(),
                self.re_rules() == old(self).re_rules(),
            decreases join_count - i,
        {
            let is_missing_here = next_missing < missing_count && pending.missing[next_missing]
                == i;
            if is_missing_here {
                let left = pending.chunks[i].as_str();
                let right = pending.chunks[i + 1].as_str();
                let ge = score_with_space_ge[next_missing];
                let decision = ge || crate::chars::ends_with_ascii_word(left);
                self.insert_glue_pair_cache(left, right, decision);
                proof {
                    crate::cache::lemma_insert_all_snoc(
                        old(self).glue_pair_model(),
                        pair_kvs.take(next_missing as int + 1),
                        GLUE_PAIR_CACHE_CAPACITY as int,
                    );
                    assert(pair_kvs.take(next_missing as int + 1).drop_last() =~= pair_kvs.take(
                        next_missing as int,
                    ));
                    assert(pair_kvs.take(next_missing as int + 1).last() == pair_kvs[
                        next_missing as int
                    ]);
                    assert(pair_kvs[next_missing as int].0 == (
                        pending.chunks@[i as int]@,
                        pending.chunks@[i as int + 1]@,
                    ));
                }
                insertions.push(decision);
                next_missing = next_missing + 1;
            } else {
                proof {
                    assert(!in_missing(pending.missing@, i as int)) by {
                        if in_missing(pending.missing@, i as int) {
                            let k = choose|k: int|
                                0 <= k < pending.missing@.len() && pending.missing@[k] == i;
                            if k < next_missing {
                                assert(pending.missing@[k] < i);
                            } else {
                                if next_missing < missing_count {
                                    if k > next_missing {
                                        assert(pending.missing@[next_missing as int]
                                            < pending.missing@[k]);
                                    }
                                }
                            }
                        }
                    }
                }
                insertions.push(pending.space_insertions[i]);
            }
            i = i + 1;
        }
        proof {
            assert forall|k: int| 0 <= k < missing_count implies (#[trigger] pending.missing@[k])
                < join_count by {}
            assert(next_missing == missing_count) by {
                if next_missing < missing_count {
                    assert(join_count <= pending.missing@[next_missing as int]);
                }
            }
        }
        proof {
            assert(pair_kvs.take(missing_count as int) =~= pair_kvs);
        }
        let text = crate::glue::assemble_glued(
            &pending.chunks,
            &insertions,
            pending.insert_new_lines.as_ref(),
        );
        let refs = as_str_refs(&pending.chunks);
        let nl_slices: Option<&[bool]> = match &pending.insert_new_lines {
            Some(f) => Some(f.as_slice()),
            None => None,
        };
        proof {
            assert(crate::fingerprint::chunks_view(refs@) == strings_view(pending.chunks@));
        }
        self.insert_glue_cache(refs.as_slice(), nl_slices, text.as_str(), insertions.as_slice());
        (text, insertions)
    }
}

/// Join-cache exemption: a configuration change that invalidates the
/// analyzer-output caches leaves every cached join render servable, exactly
/// as before the change.
pub proof fn lemma_join_cache_exemption(
    pre: Kiwi,
    post: Kiwi,
    key: (bool, Seq<(Seq<char>, Seq<char>)>),
)
    requires
        Kiwi::spec_invalidated(pre, post),
    ensures
        model_find(post.join_model(), key) == model_find(pre.join_model(), key),
{
}

/// Cache coherence on mutation: after a configuration change, none of the
/// analyzer-output caches can serve any entry — every lookup misses, so the
/// next result is computed fresh under the new configuration.
pub proof fn lemma_invalidated_caches_miss(
    pre: Kiwi,
    post: Kiwi,
    tokenize_key: (TokenizeCacheKey, Seq<char>),
    analyze_key: (AnalyzeCacheKey, Seq<char>),
    split_key: (i32, Seq<char>),
    glue_key: (Seq<Seq<char>>, Option<Seq<bool>>),
    glue_pair_key: (Seq<char>, Seq<char>),
)
    requires
        Kiwi::spec_invalidated(pre, post),
    ensures
        model_find(post.tokenize_model(), tokenize_key) is None,
        model_find(post.analyze_model(), analyze_key) is None,
        model_find(post.split_model(), split_key) is None,
        model_find(post.glue_model(), glue_key) is None,
        model_find(post.glue_pair_model(), glue_pair_key) is None,
{
}

} // verus!
