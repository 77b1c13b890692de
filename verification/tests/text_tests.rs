use kiwi_rs::{
    build_char_to_byte_map, byte_to_char_index, ends_with_ascii_word, glue_fingerprint,
    ranges_overlap, reset_hangul_whitespace, should_insert_space_between, should_strip_gap,
    slice_char_range, strip_all_whitespace, to_c16_null_terminated, trimmed, KiwiError,
    TextFingerprint,
};

#[test]
fn ranges_overlap_handles_touching_and_overlapping_ranges() {
    assert!(ranges_overlap(1, 4, 3, 6));
    assert!(!ranges_overlap(1, 3, 3, 5));
    assert!(!ranges_overlap(4, 6, 1, 4));
}

#[test]
fn char_byte_conversion_helpers_handle_multibyte_text() {
    let text = "가a나";
    let map = build_char_to_byte_map(text);
    assert_eq!(map, vec![0, 3, 4, 7]);

    assert_eq!(byte_to_char_index(text, 0), 0);
    assert_eq!(byte_to_char_index(text, 1), 0);
    assert_eq!(byte_to_char_index(text, 3), 1);
    assert_eq!(byte_to_char_index(text, 4), 2);
    assert_eq!(byte_to_char_index(text, 99), 3);

    assert_eq!(slice_char_range(text, &map, 1, 3), "a나");
    assert_eq!(slice_char_range(text, &map, 2, 20), "나");
}

#[test]
fn reset_hangul_whitespace_keeps_only_non_hangul_boundaries() {
    let value = "가 나 ? 다 e";
    assert_eq!(reset_hangul_whitespace(value), "가나? 다 e");
}

#[test]
fn spacing_tag_rules_cover_special_cases() {
    assert!(should_insert_space_between("NNG", "NNG", "단어"));
    assert!(should_insert_space_between("SF", "NP", "나"));
    assert!(!should_insert_space_between("NNG", "VX", "하"));
    assert!(!should_insert_space_between("NNG", "VX", "지"));

    assert!(should_strip_gap(Some("SN"), "NNB", "개"));
    assert!(should_strip_gap(None, "JKS", "가"));
    assert!(!should_strip_gap(Some("NNG"), "NNG", "사과"));
}

#[test]
fn glue_fingerprint_changes_with_structure() {
    let first = glue_fingerprint(&["가", "나"], None);
    let same = glue_fingerprint(&["가", "나"], None);
    let with_newline = glue_fingerprint(&["가", "나"], Some(&[true]));
    let merged = glue_fingerprint(&["가나"], None);

    assert_eq!(first, same);
    assert_ne!(first, with_newline);
    assert_ne!(first, merged);
}

#[test]
fn ends_with_ascii_word_detects_last_non_whitespace_char() {
    assert!(ends_with_ascii_word("한글 abc"));
    assert!(ends_with_ascii_word("value42   "));
    assert!(!ends_with_ascii_word("한글 끝."));
    assert!(!ends_with_ascii_word("   "));
}

#[test]
fn to_c16_null_terminated_rejects_interior_nul() {
    let ok = to_c16_null_terminated(&[0xAC00, 0xB098]).expect("expected conversion to succeed");
    assert_eq!(ok, vec![0xAC00, 0xB098, 0]);

    let err = to_c16_null_terminated(&[0xAC00, 0, 0xB098]);
    assert!(matches!(err, Err(KiwiError::InvalidArgument(_))));
}

#[test]
fn fingerprint_separates_texts_by_length_and_edges() {
    let a = TextFingerprint::of("abcdefghij");
    let b = TextFingerprint::of("abcdefghij");
    let c = TextFingerprint::of("abcdefghiX");
    let d = TextFingerprint::of("abc");
    assert_eq!(a, b);
    assert_ne!(a, c);
    assert_ne!(a, d);
    assert_eq!(a.len, 10);
    assert_eq!(d.len, 3);
}

#[test]
fn fingerprint_of_empty_text_is_all_zero() {
    let fp = TextFingerprint::of("");
    assert_eq!(fp.len, 0);
    assert_eq!(fp.head, 0);
    assert_eq!(fp.tail, 0);
}

#[test]
fn strip_all_whitespace_removes_every_kind_of_space() {
    assert_eq!(strip_all_whitespace(" a\tb\nc "), "abc");
    assert_eq!(strip_all_whitespace("사 과"), "사과");
    assert_eq!(strip_all_whitespace(""), "");
}

#[test]
fn trimmed_removes_leading_and_trailing_whitespace_only() {
    assert_eq!(trimmed("  a b  "), "a b");
    assert_eq!(trimmed("x"), "x");
    assert_eq!(trimmed("   "), "");
    assert_eq!(trimmed(""), "");
}

#[test]
fn starts_with_any_matches_any_listed_prefix() {
    assert!(kiwi_rs::starts_with_any("VCN", &["VV", "VA", "VCN"]));
    assert!(!kiwi_rs::starts_with_any("NNG", &["VV", "VA"]));
    assert!(kiwi_rs::str_starts_with("NNG", "NN"));
    assert!(!kiwi_rs::str_starts_with("N", "NN"));
}
