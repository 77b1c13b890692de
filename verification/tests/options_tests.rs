use kiwi_rs::{
    AnalyzeOptions, KiwiError, PreAnalyzedToken, UserWord, DEFAULT_DIALECT_COST_BITS,
    KIWI_DIALECT_STANDARD, KIWI_MATCH_ALL_WITH_NORMALIZING, KIWI_TYPO_BASIC_TYPO_SET,
    KIWI_TYPO_CONTINUAL_TYPO_SET, KIWI_TYPO_WITHOUT_TYPO,
};

#[test]
fn typo_constants_are_stable() {
    assert_eq!(KIWI_TYPO_WITHOUT_TYPO, 0);
    assert_eq!(KIWI_TYPO_BASIC_TYPO_SET, 1);
    assert_eq!(KIWI_TYPO_CONTINUAL_TYPO_SET, 2);
}

#[test]
fn pre_analyzed_token_new_and_span() {
    let token = PreAnalyzedToken::new("형태소", "NNG").with_span(1, 3);
    assert_eq!(token.form, "형태소");
    assert_eq!(token.tag, "NNG");
    assert_eq!(token.begin, Some(1));
    assert_eq!(token.end, Some(3));
}

#[test]
fn analyze_options_default_is_reasonable() {
    let options = AnalyzeOptions::default();
    assert_eq!(options.top_n, 1);
    assert_eq!(options.match_options, KIWI_MATCH_ALL_WITH_NORMALIZING);
    assert!(!options.open_ending);
    assert_eq!(options.allowed_dialects, KIWI_DIALECT_STANDARD);
    assert_eq!(options.dialect_cost_bits, DEFAULT_DIALECT_COST_BITS);
    assert_eq!(DEFAULT_DIALECT_COST_BITS, 3.0f32.to_bits());
}

#[test]
fn analyze_options_validate_top_n() {
    let err = AnalyzeOptions::default().with_top_n(0).validated_top_n();
    assert!(err.is_err());
}

#[test]
fn analyze_options_validate_top_n_rejects_overflow() {
    let too_large = (i32::MAX as usize).saturating_add(1);
    let err = AnalyzeOptions::default()
        .with_top_n(too_large)
        .validated_top_n();
    assert!(err.is_err());
}

#[test]
fn analyze_options_builder_methods_update_fields() {
    let options = AnalyzeOptions::default()
        .with_top_n(3)
        .with_match_options(42)
        .with_open_ending(true)
        .with_allowed_dialects(7)
        .with_dialect_cost_bits(1.25f32.to_bits());

    assert_eq!(options.top_n, 3);
    assert_eq!(options.match_options, 42);
    assert!(options.open_ending);
    assert_eq!(options.allowed_dialects, 7);
    assert_eq!(options.dialect_cost_bits, 1.25f32.to_bits());
}

#[test]
fn validated_top_n_accepts_ordinary_counts() {
    let ok = AnalyzeOptions::default().with_top_n(5).validated_top_n();
    assert_eq!(ok.unwrap(), 5);
}

#[test]
fn validated_top_n_reports_invalid_argument() {
    let err = AnalyzeOptions::default().with_top_n(0).validated_top_n();
    assert!(matches!(err, Err(KiwiError::InvalidArgument(_))));
}

#[test]
fn user_word_keeps_its_fields() {
    let word = UserWord::new("러스트", "NNP", 1.5f32.to_bits());
    assert_eq!(word.word, "러스트");
    assert_eq!(word.tag, "NNP");
    assert_eq!(word.score_bits, 1.5f32.to_bits());
}

#[test]
fn require_optional_api_reports_missing_capability() {
    let present: Option<i32> = Some(7);
    assert_eq!(kiwi_rs::require_optional_api(present, "entry").unwrap(), 7);

    let absent: Option<i32> = None;
    let err = kiwi_rs::require_optional_api(absent, "entry");
    match err {
        Err(KiwiError::Api(message)) => assert!(message.starts_with("entry")),
        _ => panic!("an absent entry point must surface as a capability error"),
    }
}
