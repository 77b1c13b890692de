use kiwi_rs::{extract_json_string_field, find_asset_url};

#[test]
fn extract_json_string_field_handles_basic_and_escaped_values() {
    let json = r#"{"name":"kiwi","message":"line\n\"quoted\"","num":3}"#;
    assert_eq!(
        extract_json_string_field(json, "name").as_deref(),
        Some("kiwi")
    );
    assert_eq!(
        extract_json_string_field(json, "message").as_deref(),
        Some("line\n\"quoted\"")
    );
    assert!(extract_json_string_field(json, "num").is_none());
}

#[test]
fn extract_json_string_field_returns_none_for_missing_or_unclosed_values() {
    assert!(extract_json_string_field("{}", "tag_name").is_none());
    assert!(extract_json_string_field(r#"{"tag_name":"v0.1"#, "tag_name").is_none());
}

#[test]
fn find_asset_url_returns_expected_url() {
    let json = r#"{
        "assets": [
            {"name":"a.tgz","browser_download_url":"https://example/a.tgz"},
            {"name":"b.tgz","browser_download_url":"https://example/b.tgz"}
        ]
    }"#;
    assert_eq!(
        find_asset_url(json, "b.tgz").as_deref(),
        Some("https://example/b.tgz")
    );
}

#[test]
fn find_asset_url_returns_none_when_url_field_missing() {
    let json = r#"{"assets":[{"name":"a.tgz"}]}"#;
    assert!(find_asset_url(json, "a.tgz").is_none());
}

#[test]
fn parse_json_field() {
    let json = r#"{"tag_name":"v0.22.2","name":"Kiwi"}"#;
    let tag = extract_json_string_field(json, "tag_name");
    assert_eq!(tag.as_deref(), Some("v0.22.2"));
}

#[test]
fn find_asset_url_from_release_json() {
    let json = r#"{
        "assets": [
            {"name":"kiwi_model_v0.22.2_base.tgz","browser_download_url":"https://example/model.tgz"},
            {"name":"kiwi_mac_arm64_v0.22.2.tgz","browser_download_url":"https://example/mac.tgz"}
        ]
    }"#;
    let url = find_asset_url(json, "kiwi_mac_arm64_v0.22.2.tgz");
    assert_eq!(url.as_deref(), Some("https://example/mac.tgz"));
}

#[test]
fn find_asset_url_returns_none_when_missing() {
    let json = r#"{"assets":[{"name":"a","browser_download_url":"https://example/a"}]}"#;
    let url = find_asset_url(json, "not-found");
    assert!(url.is_none());
}

#[test]
fn parse_json_field_with_escaped_quotes() {
    let json = r#"{"message":"hello \"kiwi\""}"#;
    let message = extract_json_string_field(json, "message");
    assert_eq!(message.as_deref(), Some("hello \"kiwi\""));
}

#[test]
fn extract_json_string_field_skips_whitespace_before_value() {
    let json = "{\"tag_name\" :  \"v1.2\"}";
    assert_eq!(
        extract_json_string_field(json, "tag_name").as_deref(),
        Some("v1.2")
    );
}

#[test]
fn extract_json_string_field_decodes_control_escapes() {
    let json = r#"{"m":"a\tb\rc\bd\fe\/f"}"#;
    assert_eq!(
        extract_json_string_field(json, "m").as_deref(),
        Some("a\tb\rc\u{0008}d\u{000C}e/f")
    );
}
