use kiwi_rs::{build_sentences_from_tokens, reconstruct_spaced_text, token_end, Token};

fn token(
    form: &str,
    position: usize,
    length: usize,
    sent_position: usize,
    sub_sent_position: usize,
) -> Token {
    Token {
        form: form.to_string(),
        tag: "NNG".to_string(),
        position,
        length,
        word_position: 0,
        sent_position,
        line_number: 0,
        sub_sent_position,
        score_bits: 0,
        typo_cost_bits: 0,
        typo_form_id: 0,
        paired_token: None,
        morpheme_id: None,
        tag_id: None,
        sense_or_script: None,
        dialect: None,
    }
}

fn token_with_tag(
    form: &str,
    tag: &str,
    position: usize,
    length: usize,
    sent_position: usize,
    sub_sent_position: usize,
) -> Token {
    Token {
        tag: tag.to_string(),
        ..token(form, position, length, sent_position, sub_sent_position)
    }
}

#[test]
fn build_sentences_groups_by_sentence_and_sub_sentence_positions() {
    let text = "가 나 다 라";
    let tokens = vec![
        token("가", 0, 1, 0, 0),
        token("나", 2, 1, 0, 1),
        token("다", 4, 1, 0, 1),
        token("라", 6, 1, 1, 0),
    ];

    let sentences = build_sentences_from_tokens(text, tokens, true, true);
    assert_eq!(sentences.len(), 2);

    let first = &sentences[0];
    assert_eq!(first.start, 0);
    assert_eq!(first.end, 5);
    assert_eq!(first.text, "가 나 다");
    assert_eq!(first.tokens.as_ref().map(Vec::len), Some(3));
    assert_eq!(first.subs.as_ref().map(Vec::len), Some(1));

    let sub = &first.subs.as_ref().expect("sub-sents missing")[0];
    assert_eq!(sub.start, 2);
    assert_eq!(sub.end, 5);
    assert_eq!(sub.text, "나 다");
    assert_eq!(sub.tokens.as_ref().map(Vec::len), Some(2));

    let second = &sentences[1];
    assert_eq!(second.start, 6);
    assert_eq!(second.end, 7);
    assert_eq!(second.text, "라");
    assert_eq!(second.tokens.as_ref().map(Vec::len), Some(1));
    assert_eq!(second.subs.as_ref().map(Vec::len), Some(0));
}

#[test]
fn build_sentences_without_token_payloads_leaves_tokens_none() {
    let text = "가 나 다";
    let tokens = vec![
        token("가", 0, 1, 0, 1),
        token("나", 2, 1, 0, 1),
        token("다", 4, 1, 0, 0),
    ];

    let sentences = build_sentences_from_tokens(text, tokens, false, true);
    assert_eq!(sentences.len(), 1);
    assert!(sentences[0].tokens.is_none());
    assert_eq!(sentences[0].subs.as_ref().map(Vec::len), Some(1));
    assert!(sentences[0]
        .subs
        .as_ref()
        .and_then(|subs| subs[0].tokens.as_ref())
        .is_none());
}

#[test]
fn reconstruct_spaced_text_strips_josa_gap_and_inserts_predicate_space() {
    let raw = "사과 를먹었다";
    let tokens = vec![
        token_with_tag("사과", "NNG", 0, 2, 0, 0),
        token_with_tag("를", "JKO", 3, 1, 0, 0),
        token_with_tag("먹었다", "VV", 4, 3, 0, 0),
    ];

    let spaced = reconstruct_spaced_text(raw, &tokens);
    assert_eq!(spaced, "사과를 먹었다");
}

#[test]
fn reconstruct_with_no_tokens_returns_raw_text() {
    let raw = "그대로 둔다";
    assert_eq!(reconstruct_spaced_text(raw, &[]), raw);
}

#[test]
fn sentence_spans_cover_their_tokens() {
    let text = "가 나 다 라 마";
    let tokens = vec![
        token("가", 0, 1, 0, 0),
        token("나", 2, 1, 0, 0),
        token("다", 4, 1, 1, 0),
        token("라", 6, 1, 1, 0),
        token("마", 8, 1, 2, 0),
    ];
    let sentences = build_sentences_from_tokens(text, tokens.clone(), true, false);
    assert_eq!(sentences.len(), 3);
    for sentence in &sentences {
        for t in sentence.tokens.as_ref().unwrap() {
            assert!(sentence.start <= t.position);
            assert!(token_end(t) <= sentence.end);
        }
    }
    // spans are sorted and non-overlapping for this position-sorted input
    for pair in sentences.windows(2) {
        assert!(pair[0].end <= pair[1].start);
    }
}

#[test]
fn sentences_are_ordered_by_sentence_index_not_arrival() {
    let text = "가 나";
    let tokens = vec![token("나", 2, 1, 7, 0), token("가", 0, 1, 3, 0)];
    let sentences = build_sentences_from_tokens(text, tokens, false, false);
    assert_eq!(sentences.len(), 2);
    assert_eq!(sentences[0].text, "가");
    assert_eq!(sentences[1].text, "나");
}

#[test]
fn token_end_saturates_at_machine_limit() {
    let t = token("x", usize::MAX - 1, 5, 0, 0);
    assert_eq!(token_end(&t), usize::MAX);
}
