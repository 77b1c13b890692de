use kiwi_rs::{
    AnalyzeCacheKey, AnalysisCandidate, AnalyzeOptions, Kiwi, SentenceBoundary, Token,
    TokenizeCacheKey, JOIN_CACHE_CAPACITY, SPLIT_CACHE_CAPACITY, TOKENIZE_CACHE_CAPACITY,
};

fn token(form: &str, position: usize, length: usize) -> Token {
    Token {
        form: form.to_string(),
        tag: "NNG".to_string(),
        position,
        length,
        word_position: 0,
        sent_position: 0,
        line_number: 0,
        sub_sent_position: 0,
        score_bits: 0,
        typo_cost_bits: 0,
        typo_form_id: 0,
        paired_token: None,
        morpheme_id: None,
        tag_id: None,
        sense_or_script: None,
        dialect: None,
    }
}

fn fresh() -> Kiwi {
    Kiwi::new(AnalyzeOptions::default())
}

fn tokenize_key() -> TokenizeCacheKey {
    TokenizeCacheKey::from_options(AnalyzeOptions::default())
}

#[test]
fn tokenize_cache_returns_exactly_what_was_inserted() {
    let mut kiwi = fresh();
    let key = tokenize_key();
    let tokens = vec![token("사과", 0, 2), token("를", 2, 1)];
    assert!(kiwi.lookup_tokenize_cache("사과를", key).is_none());
    kiwi.insert_tokenize_cache("사과를", key, &tokens);

    let first = kiwi.lookup_tokenize_cache("사과를", key).expect("hit");
    let second = kiwi.lookup_tokenize_cache("사과를", key).expect("hit");
    assert_eq!(first.len(), 2);
    assert_eq!(first[0].form, "사과");
    assert_eq!(first[1].form, "를");
    // a repeated lookup serves the identical result
    assert_eq!(first.len(), second.len());
    for (a, b) in first.iter().zip(second.iter()) {
        assert_eq!(a.form, b.form);
        assert_eq!(a.position, b.position);
        assert_eq!(a.length, b.length);
    }
}

#[test]
fn tokenize_cache_distinguishes_options_and_text() {
    let mut kiwi = fresh();
    let key = tokenize_key();
    let other_key = TokenizeCacheKey::from_options(AnalyzeOptions::default().with_match_options(0));
    kiwi.insert_tokenize_cache("텍스트", key, &vec![token("텍스트", 0, 3)]);

    assert!(kiwi.lookup_tokenize_cache("텍스트", other_key).is_none());
    assert!(kiwi.lookup_tokenize_cache("다른텍스트", key).is_none());
    assert!(kiwi.lookup_tokenize_cache("텍스트", key).is_some());
}

#[test]
fn tokenize_cache_evicts_first_key_after_capacity_plus_one_inserts() {
    let mut kiwi = fresh();
    let key = tokenize_key();
    for i in 0..(TOKENIZE_CACHE_CAPACITY + 1) {
        let text = format!("text-{i}");
        kiwi.insert_tokenize_cache(&text, key, &vec![token(&text, 0, 1)]);
    }
    assert!(kiwi.lookup_tokenize_cache("text-0", key).is_none());
    assert!(kiwi.lookup_tokenize_cache("text-1", key).is_some());
}

#[test]
fn split_cache_evicts_first_key_after_capacity_plus_one_inserts() {
    let mut kiwi = fresh();
    let boundaries = vec![SentenceBoundary { begin: 0, end: 3 }];
    for i in 0..(SPLIT_CACHE_CAPACITY + 1) {
        let text = format!("split-{i}");
        kiwi.insert_split_cache(&text, 0, &boundaries);
    }
    assert!(kiwi.lookup_split_cache("split-0", 0).is_none());
    assert!(kiwi.lookup_split_cache("split-1", 0).is_some());
}

#[test]
fn join_cache_evicts_first_key_after_capacity_plus_one_inserts() {
    let mut kiwi = fresh();
    for i in 0..(JOIN_CACHE_CAPACITY + 1) {
        let form = format!("형태-{i}");
        kiwi.insert_join_cache(&[(form.as_str(), "NNG")], true, &form);
    }
    assert!(kiwi.lookup_join_cache(&[("형태-0", "NNG")], true).is_none());
    assert!(kiwi.lookup_join_cache(&[("형태-1", "NNG")], true).is_some());
}

#[test]
fn lookup_promotes_entry_so_it_survives_eviction() {
    let mut kiwi = fresh();
    for i in 0..JOIN_CACHE_CAPACITY {
        let form = format!("유지-{i}");
        kiwi.insert_join_cache(&[(form.as_str(), "NNG")], false, &form);
    }
    // touch the oldest entry, then push one more insert
    assert!(kiwi.lookup_join_cache(&[("유지-0", "NNG")], false).is_some());
    kiwi.insert_join_cache(&[("새항목", "NNG")], false, "새항목");
    // the promoted entry survived; the second-oldest was evicted instead
    assert!(kiwi.lookup_join_cache(&[("유지-0", "NNG")], false).is_some());
    assert!(kiwi.lookup_join_cache(&[("유지-1", "NNG")], false).is_none());
}

#[test]
fn analyze_cache_round_trips_candidates() {
    let mut kiwi = fresh();
    let key = AnalyzeCacheKey::from_options(AnalyzeOptions::default());
    let candidates = vec![AnalysisCandidate {
        probability_bits: 0x3F80_0000,
        tokens: vec![token("단어", 0, 2)],
    }];
    kiwi.insert_analyze_cache("단어", key, &candidates);
    let hit = kiwi.lookup_analyze_cache("단어", key).expect("hit");
    assert_eq!(hit.len(), 1);
    assert_eq!(hit[0].probability_bits, 0x3F80_0000);
    assert_eq!(hit[0].tokens[0].form, "단어");
}

#[test]
fn configuration_change_clears_inference_caches() {
    let mut kiwi = fresh();
    let key = tokenize_key();
    kiwi.insert_tokenize_cache("문장", key, &vec![token("문장", 0, 2)]);
    kiwi.insert_split_cache("문장", 0, &vec![SentenceBoundary { begin: 0, end: 2 }]);
    assert!(kiwi.lookup_tokenize_cache("문장", key).is_some());

    kiwi.set_default_analyze_options(AnalyzeOptions::default().with_open_ending(true));

    assert!(kiwi.lookup_tokenize_cache("문장", key).is_none());
    assert!(kiwi.lookup_split_cache("문장", 0).is_none());
}

#[test]
fn join_cache_survives_configuration_change() {
    let mut kiwi = fresh();
    kiwi.insert_join_cache(&[("겨울", "NNG"), ("눈", "NNG")], true, "겨울눈");

    kiwi.set_default_analyze_options(AnalyzeOptions::default().with_allowed_dialects(1));
    kiwi.clear_re_words();

    let served = kiwi.lookup_join_cache(&[("겨울", "NNG"), ("눈", "NNG")], true);
    assert_eq!(served.as_deref(), Some("겨울눈"));
}

#[test]
fn add_re_word_clears_inference_caches_and_rejects_bad_patterns() {
    let mut kiwi = fresh();
    let key = tokenize_key();
    kiwi.insert_tokenize_cache("본문", key, &vec![token("본문", 0, 2)]);

    assert!(kiwi.add_re_word("[0-9]+", "SN").is_ok());
    assert!(kiwi.lookup_tokenize_cache("본문", key).is_none());

    // an invalid pattern is rejected and leaves the state unchanged
    kiwi.insert_tokenize_cache("본문", key, &vec![token("본문", 0, 2)]);
    assert!(kiwi.add_re_word("foo(bar", "SN").is_err());
    assert!(kiwi.lookup_tokenize_cache("본문", key).is_some());
}

#[test]
fn compute_re_word_spans_finds_non_overlapping_matches() {
    let mut kiwi = fresh();
    kiwi.add_re_word("[0-9]+", "SN").expect("pattern compiles");
    kiwi.add_re_word("[0-9]", "SN").expect("pattern compiles");

    let spans = kiwi.compute_re_word_spans("가 12개 3");
    assert_eq!(spans.len(), 2);
    assert_eq!(spans[0].begin, 2);
    assert_eq!(spans[0].end, 4);
    assert_eq!(spans[0].form, "12");
    assert_eq!(spans[0].tag, "SN");
    assert_eq!(spans[1].begin, 6);
    assert_eq!(spans[1].end, 7);
    assert_eq!(spans[1].form, "3");
}

#[test]
fn compute_re_word_spans_without_rules_is_empty() {
    let kiwi = fresh();
    assert!(kiwi.compute_re_word_spans("아무 규칙 없음 123").is_empty());
}

#[test]
fn analyze_cache_evicts_first_key_after_capacity_plus_one_inserts() {
    let mut kiwi = fresh();
    let key = AnalyzeCacheKey::from_options(AnalyzeOptions::default());
    for i in 0..(kiwi_rs::ANALYZE_CACHE_CAPACITY + 1) {
        let text = format!("analyze-{i}");
        let candidates = vec![AnalysisCandidate {
            probability_bits: 0,
            tokens: vec![token(&text, 0, 1)],
        }];
        kiwi.insert_analyze_cache(&text, key, &candidates);
    }
    assert!(kiwi.lookup_analyze_cache("analyze-0", key).is_none());
    assert!(kiwi.lookup_analyze_cache("analyze-1", key).is_some());
}

#[test]
fn glue_pair_cache_evicts_first_key_after_capacity_plus_one_inserts() {
    let mut kiwi = fresh();
    for i in 0..(kiwi_rs::GLUE_PAIR_CACHE_CAPACITY + 1) {
        let left = format!("왼쪽-{i}");
        kiwi.insert_glue_pair_cache(&left, "오른쪽", false);
    }
    assert!(kiwi.lookup_glue_pair_cache("왼쪽-0", "오른쪽").is_none());
    assert!(kiwi.lookup_glue_pair_cache("왼쪽-1", "오른쪽").is_some());
}

#[test]
fn glue_cache_evicts_first_key_after_capacity_plus_one_inserts() {
    let mut kiwi = fresh();
    for i in 0..(kiwi_rs::GLUE_CACHE_CAPACITY + 1) {
        let left = format!("조각-{i}");
        let chunks = [left.as_str(), "끝"];
        let glued = format!("{left} 끝");
        kiwi.insert_glue_cache(&chunks, None, &glued, &[true]);
    }
    assert!(kiwi.lookup_glue_cache(&["조각-0", "끝"], None).is_none());
    assert!(kiwi.lookup_glue_cache(&["조각-1", "끝"], None).is_some());
}

#[test]
fn cached_glue_pair_decision_keeps_the_ascii_override() {
    let mut kiwi = fresh();
    kiwi.insert_glue_pair_cache("word9", "뒤", true);
    assert_eq!(kiwi.lookup_glue_pair_cache("word9", "뒤"), Some(true));
}
