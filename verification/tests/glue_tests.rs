use kiwi_rs::{AnalyzeOptions, GlueStep, Kiwi, KiwiError};

fn fresh() -> Kiwi {
    Kiwi::new(AnalyzeOptions::default())
}

fn finish(kiwi: &mut Kiwi, step: GlueStep, scores: &[bool]) -> (String, Vec<bool>) {
    match step {
        GlueStep::Done(text, insertions) => (text, insertions),
        GlueStep::NeedScores(pending) => {
            assert_eq!(scores.len(), pending.missing.len());
            kiwi.glue_finish(pending, scores)
        }
    }
}

#[test]
fn glue_of_empty_chunk_list_is_empty() {
    let mut kiwi = fresh();
    match kiwi.glue_prepare(&[], None).expect("no error") {
        GlueStep::Done(text, insertions) => {
            assert_eq!(text, "");
            assert!(insertions.is_empty());
        }
        GlueStep::NeedScores(_) => panic!("no scores needed for an empty request"),
    }
}

#[test]
fn glue_of_single_chunk_returns_it_trimmed() {
    let mut kiwi = fresh();
    match kiwi.glue_prepare(&["x"], None).expect("no error") {
        GlueStep::Done(text, insertions) => {
            assert_eq!(text, "x");
            assert!(insertions.is_empty());
        }
        GlueStep::NeedScores(_) => panic!("no scores needed for a single chunk"),
    }
    match kiwi.glue_prepare(&["  양쪽 공백  "], None).expect("no error") {
        GlueStep::Done(text, _) => assert_eq!(text, "양쪽 공백"),
        GlueStep::NeedScores(_) => panic!("no scores needed for a single chunk"),
    }
}

#[test]
fn glue_inserts_separator_after_ascii_word_regardless_of_scores() {
    for unfavorable_score in [false, true] {
        let mut kiwi = fresh();
        let step = kiwi.glue_prepare(&["abc", "123"], None).expect("no error");
        let (text, insertions) = finish(&mut kiwi, step, &[unfavorable_score]);
        assert_eq!(text, "abc 123");
        assert_eq!(insertions, vec![true]);
    }
}

#[test]
fn glue_omits_separator_when_scores_prefer_joining() {
    let mut kiwi = fresh();
    let step = kiwi.glue_prepare(&["사과", "나무"], None).expect("no error");
    let (text, insertions) = finish(&mut kiwi, step, &[false]);
    assert_eq!(text, "사과나무");
    assert_eq!(insertions, vec![false]);

    // the pair cache stored exactly the computed decision
    assert_eq!(kiwi.lookup_glue_pair_cache("사과", "나무"), Some(false));
    match kiwi.glue_prepare(&["사과", "나무"], None).expect("no error") {
        GlueStep::Done(repeat_text, repeat_insertions) => {
            assert_eq!(repeat_text, "사과나무");
            assert_eq!(repeat_insertions, vec![false]);
        }
        GlueStep::NeedScores(_) => panic!("repeated request must be served from cache"),
    }

    let mut other = fresh();
    let step = other.glue_prepare(&["사과", "나무"], None).expect("no error");
    let (text, insertions) = finish(&mut other, step, &[true]);
    assert_eq!(text, "사과 나무");
    assert_eq!(insertions, vec![true]);
}

#[test]
fn glue_serves_repeated_requests_from_cache_identically() {
    let mut kiwi = fresh();
    let step = kiwi.glue_prepare(&["abc", "한글"], None).expect("no error");
    let (first, _) = finish(&mut kiwi, step, &[false]);

    // the repeated request is answered without any scoring
    match kiwi.glue_prepare(&["abc", "한글"], None).expect("no error") {
        GlueStep::Done(text, insertions) => {
            assert_eq!(text, first);
            assert_eq!(insertions, vec![true]);
        }
        GlueStep::NeedScores(_) => panic!("repeated request must be served from cache"),
    }
}

#[test]
fn glue_pair_cache_resolves_new_combinations_of_known_pairs() {
    let mut kiwi = fresh();
    let step = kiwi.glue_prepare(&["가지", "나무"], None).expect("no error");
    let (_, _) = finish(&mut kiwi, step, &[false]);

    // a longer request whose single unknown boundary is the second one
    let step = kiwi
        .glue_prepare(&["가지", "나무", "끝말"], None)
        .expect("no error");
    match step {
        GlueStep::NeedScores(pending) => {
            assert_eq!(pending.missing, vec![1]);
            assert_eq!(pending.candidates.len(), 2);
            assert_eq!(pending.candidates[0], "나무 끝말");
            assert_eq!(pending.candidates[1], "나무끝말");
            let (text, insertions) = kiwi.glue_finish(pending, &[true]);
            assert_eq!(text, "가지나무 끝말");
            assert_eq!(insertions, vec![false, true]);
        }
        GlueStep::Done(_, _) => panic!("the second boundary is not cached yet"),
    }
}

#[test]
fn glue_respects_newline_flags() {
    let mut kiwi = fresh();
    let step = kiwi
        .glue_prepare(&["첫줄", "둘째줄"], Some(&[true]))
        .expect("no error");
    let (text, insertions) = finish(&mut kiwi, step, &[true]);
    assert_eq!(text, "첫줄\n둘째줄");
    assert_eq!(insertions, vec![true]);
}

#[test]
fn glue_rejects_mismatched_newline_flags() {
    let mut kiwi = fresh();
    let err = kiwi.glue_prepare(&["하나", "둘"], Some(&[true, false]));
    assert!(matches!(err, Err(KiwiError::InvalidArgument(_))));
}

#[test]
fn glue_trims_chunks_before_deciding() {
    let mut kiwi = fresh();
    let step = kiwi.glue_prepare(&[" abc ", " 한글 "], None).expect("no error");
    let (text, _) = finish(&mut kiwi, step, &[false]);
    assert_eq!(text, "abc 한글");
}
