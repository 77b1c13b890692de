//! Core logic of a Korean morphological-analysis convenience layer: bounded
//! recency caches keyed by text fingerprints, spacing reconstruction, chunk
//! gluing and sentence segmentation. The native analyzer itself is an opaque
//! collaborator reached by the surrounding plumbing; everything here is the
//! deterministic logic built above it.

mod bootstrap;
mod cache;
mod chars;
mod constants;
mod error;
mod fingerprint;
mod glue;
mod rewords;
mod runtime;
mod segment;
mod spacing;
mod types;

pub use bootstrap::{extract_json_string_field, find_asset_url};
pub use cache::{
    distinct_keys, distinct_model_keys, lemma_eviction, lemma_find_agrees,
    lemma_find_none_iff_absent, lemma_insert_agrees, lemma_insert_all_snoc,
    lemma_insert_keeps_keys_distinct, lemma_insert_then_find, lemma_promote_agrees,
    lemma_promote_all_snoc, lemma_promote_keeps_keys_distinct, model_absent, model_agrees,
    model_find, model_insert, model_insert_all, model_promote, model_promote_all, model_remove,
};
pub use chars::build_char_to_byte_map;
pub use chars::byte_to_char_index;
pub use chars::{spec_byte_to_char, spec_byte_to_char_from};
pub use chars::char_is_ascii_alnum;
pub use chars::char_is_whitespace;
pub use chars::char_utf8_len;
pub use chars::ends_with_ascii_word;
pub use chars::is_hangul_or_sentence_punct;
pub use chars::is_hangul_syllable;
pub use chars::ranges_overlap;
pub use chars::slice_char_range;
pub use chars::starts_with_any;
pub use chars::reset_hangul_whitespace;
pub use chars::str_eq;
pub use chars::str_starts_with;
pub use chars::strip_all_whitespace;
pub use chars::to_c16_null_terminated;
pub use chars::trimmed;
pub use constants::{
    DEFAULT_DIALECT_COST_BITS, KIWI_BUILD_DEFAULT, KIWI_BUILD_DEFAULT_WITH_CONG,
    KIWI_BUILD_INTEGRATE_ALLOMORPH, KIWI_BUILD_LOAD_DEFAULT_DICT, KIWI_BUILD_LOAD_MULTI_DICT,
    KIWI_BUILD_LOAD_TYPO_DICT, KIWI_BUILD_MODEL_TYPE_CONG, KIWI_BUILD_MODEL_TYPE_CONG_GLOBAL,
    KIWI_BUILD_MODEL_TYPE_DEFAULT, KIWI_BUILD_MODEL_TYPE_KNLM, KIWI_BUILD_MODEL_TYPE_LARGEST,
    KIWI_BUILD_MODEL_TYPE_SBG, KIWI_DIALECT_ALL, KIWI_DIALECT_ARCHAIC, KIWI_DIALECT_CHUNGCHEONG,
    KIWI_DIALECT_GANGWON, KIWI_DIALECT_GYEONGGI, KIWI_DIALECT_GYEONGSANG, KIWI_DIALECT_HAMGYEONG,
    KIWI_DIALECT_HWANGHAE, KIWI_DIALECT_JEJU, KIWI_DIALECT_JEOLLA, KIWI_DIALECT_PYEONGAN,
    KIWI_DIALECT_STANDARD, KIWI_MATCH_ALL, KIWI_MATCH_ALL_WITH_NORMALIZING,
    KIWI_MATCH_COMPATIBLE_JAMO, KIWI_MATCH_EMAIL, KIWI_MATCH_HASHTAG, KIWI_MATCH_JOIN_ADJ_SUFFIX,
    KIWI_MATCH_JOIN_ADV_SUFFIX, KIWI_MATCH_JOIN_AFFIX, KIWI_MATCH_JOIN_NOUN_PREFIX,
    KIWI_MATCH_JOIN_NOUN_SUFFIX, KIWI_MATCH_JOIN_VERB_SUFFIX, KIWI_MATCH_JOIN_V_SUFFIX,
    KIWI_MATCH_MENTION, KIWI_MATCH_MERGE_SAISIOT, KIWI_MATCH_NORMALIZE_CODA, KIWI_MATCH_SERIAL,
    KIWI_MATCH_SPLIT_COMPLEX, KIWI_MATCH_SPLIT_SAISIOT, KIWI_MATCH_URL, KIWI_MATCH_Z_CODA,
    KIWI_NUM_THREADS, KIWI_TYPO_BASIC_TYPO_SET, KIWI_TYPO_BASIC_TYPO_SET_WITH_CONTINUAL,
    KIWI_TYPO_BASIC_TYPO_SET_WITH_CONTINUAL_AND_LENGTHENING, KIWI_TYPO_CONTINUAL_TYPO_SET,
    KIWI_TYPO_LENGTHENING_TYPO_SET, KIWI_TYPO_WITHOUT_TYPO,
};
pub use error::{require_optional_api, KiwiError, Result};
pub use fingerprint::{glue_fingerprint, mix_u64, pack_edge, TextFingerprint};
pub use types::{
    clone_candidates, clone_tokens, Analysis, AnalysisCandidate, AnalyzeOptions, MorphemeSense,
    PreAnalyzedToken, Sentence, SentenceBoundary, Token, UserWord,
};
pub use glue::{
    assemble_glued, glue_pair_candidates, lemma_glue_ascii_override, spec_glue_decision,
    spec_glued_text, strings_view, trim_chunks,
};
pub use rewords::{regex_compiles, regex_error_message, regex_match_ranges, ReWordRule};
pub use runtime::{
    analyze_kv, boundary_keys, glue_kv, glue_pair_kv, glue_pair_kvs, in_missing, join_kv,
    join_kv_plain, overlaps_accepted, span_view, spec_accept_ranges, spec_re_word_spans,
    spec_re_word_spans_from, split_kv, SpanView,
    lemma_invalidated_caches_miss, lemma_join_cache_exemption, morphs_view, newlines_view,
    owned_morphs_view, tag_among, tokenize_kv, trimmed_views, AnalyzeCacheEntry, AnalyzeCacheKey,
    GlueCacheEntry, GluePairScoreCacheEntry, GluePending, GlueStep, JoinCacheEntry, Kiwi,
    ReWordSpan, SplitCacheEntry, TokenizeCacheEntry, TokenizeCacheKey, ANALYZE_CACHE_CAPACITY,
    GLUE_CACHE_CAPACITY, GLUE_PAIR_CACHE_CAPACITY, JOIN_CACHE_CAPACITY, SPLIT_CACHE_CAPACITY,
    TOKENIZE_CACHE_CAPACITY,
};
pub use segment::{
    build_sentences_from_tokens, build_sub_sentences_from_tokens, sent_group, spec_sent_ids,
    SubView,
};
pub use spacing::{
    is_space_insertable_prev, is_space_insertable_target, is_space_insertable_target_strict,
    reconstruct_spaced_text, should_insert_space_between, should_strip_gap, space_many_finish,
    token_end,
};
pub use types::{cand_view, cands_view};

use vstd::prelude::*;

verus! {

} // verus!
