use tg_sync::csvfmt::{messages_to_csv, messages_to_csv_chunked};
use tg_sync::domain::Message;

fn msg(id: i32, chat_id: i64, date: i64, text: &str, from: Option<i64>) -> Message {
    Message {
        id,
        chat_id,
        date,
        text: text.to_string(),
        media: None,
        from_user_id: from,
        reply_to_msg_id: None,
        edit_history: None,
    }
}

#[test]
fn test_messages_to_csv_basic() {
    let messages = vec![msg(1, 123, 1704067200, "Hello world", Some(456))];

    let csv = messages_to_csv(&messages).unwrap();
    assert!(csv.contains("Date;User;Message"));
    assert!(csv.contains("2024-01-01"));
    assert!(csv.contains("456"));
    assert!(csv.contains("Hello world"));
}

#[test]
fn test_messages_to_csv_special_chars() {
    let messages = vec![msg(
        1,
        123,
        1704067200,
        "Hello; with \"quotes\" and\nnewlines",
        Some(456),
    )];

    let csv = messages_to_csv(&messages).unwrap();
    // Should handle semicolons and quotes safely
    assert!(csv.contains("Hello"));
    // Newlines should be replaced with spaces
    assert!(!csv.contains('\n') || csv.lines().count() == 2); // header + 1 data row
}

#[test]
fn test_messages_to_csv_chunked_single() {
    let messages = vec![msg(1, 123, 1704067200, "Hello world", Some(456))];

    let chunks = messages_to_csv_chunked(&messages, 50_000).unwrap();
    assert_eq!(chunks.len(), 1);
    assert!(chunks[0].contains("Date;User;Message"));
    assert!(chunks[0].contains("Hello world"));
}

#[test]
fn test_messages_to_csv_chunked_splits() {
    let mut messages = Vec::new();
    for i in 0..100 {
        messages.push(msg(i, 123, 1704067200, &"x".repeat(600), Some(456)));
    }

    let chunks = messages_to_csv_chunked(&messages, 50_000).unwrap();
    assert!(chunks.len() > 1);
    for chunk in &chunks {
        assert!(chunk.len() <= 52_000); // Allow small overshoot for last row
        assert!(chunk.starts_with("Date;User;Message"));
    }
}

#[test]
fn test_csv_quoting_is_applied() {
    // A field holding the delimiter and quotes must come back quoted with
    // doubled quote marks, per CSV rules.
    let messages = vec![msg(
        1,
        123,
        1704067200,
        "Hello; with \"quotes\" and\nnewlines",
        Some(456),
    )];
    let csv = messages_to_csv(&messages).unwrap();
    assert!(csv.contains("\"Hello; with \"\"quotes\"\" and newlines\""));
}

#[test]
fn test_csv_date_and_unknown_user() {
    let messages = vec![msg(2, 9, 1704672000, "hey", None)];
    let csv = messages_to_csv(&messages).unwrap();
    assert!(csv.contains("2024-01-08 00:00"));
    assert!(csv.contains("unknown"));
}

#[test]
fn test_chunked_empty_is_empty() {
    let messages: Vec<Message> = Vec::new();
    let chunks = messages_to_csv_chunked(&messages, 50_000).unwrap();
    assert!(chunks.is_empty());
}

#[test]
fn test_chunked_oversized_single_row_not_split() {
    // One row larger than the ceiling is emitted as one chunk.
    let messages = vec![
        msg(1, 123, 1704067200, &"a".repeat(300), Some(456)),
        msg(2, 123, 1704067200, &"b".repeat(300), Some(456)),
    ];
    let chunks = messages_to_csv_chunked(&messages, 100).unwrap();
    assert_eq!(chunks.len(), 2);
    assert!(chunks[0].contains(&"a".repeat(300)));
    assert!(chunks[1].contains(&"b".repeat(300)));
}
