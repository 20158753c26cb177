use tg_sync::analysis::sanitize_json;

#[test]
fn test_sanitize_json_clean() {
    let input = r#"{"summary": "test"}"#;
    assert_eq!(sanitize_json(input), input);
}

#[test]
fn test_sanitize_json_markdown() {
    let input = "```json\n{\"summary\": \"test\"}\n```";
    assert_eq!(sanitize_json(input), r#"{"summary": "test"}"#);
}

#[test]
fn test_sanitize_json_markdown_no_lang() {
    let input = "```\n{\"summary\": \"test\"}\n```";
    assert_eq!(sanitize_json(input), r#"{"summary": "test"}"#);
}

#[test]
fn test_sanitize_json_with_text() {
    let input = "Here is the analysis:\n{\"summary\": \"test\", \"key_topics\": []}";
    assert_eq!(
        sanitize_json(input),
        r#"{"summary": "test", "key_topics": []}"#
    );
}

#[test]
fn test_sanitize_json_unterminated_fence() {
    let input = "```json\n{\"a\": 1}";
    assert_eq!(sanitize_json(input), r#"{"a": 1}"#);
}

#[test]
fn test_sanitize_json_plain_text() {
    let input = "  no json here  ";
    assert_eq!(sanitize_json(input), "no json here");
}
