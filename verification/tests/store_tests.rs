use tg_sync::domain::{AnalysisResult, Message, WeekGroup};
use tg_sync::fsrepo::dedup_latest_by_id;
use tg_sync::state::CheckpointMap;
use tg_sync::store::Store;

fn msg(id: i32, chat_id: i64, date: i64, text: &str) -> Message {
    Message {
        id,
        chat_id,
        date,
        text: text.to_string(),
        media: None,
        from_user_id: None,
        reply_to_msg_id: None,
        edit_history: None,
    }
}

fn result_for(chat_id: i64, week: &str) -> AnalysisResult {
    AnalysisResult {
        week_group: WeekGroup::new(week.to_string()),
        chat_id,
        summary: "Test summary".to_string(),
        key_topics: Vec::new(),
        action_items: Vec::new(),
        analyzed_at: 1704067200,
    }
}

#[test]
fn test_week_grouping_basic() {
    let mut store = Store::new();
    let chat_id = 123i64;

    // Week 1 of 2024: Jan 1-7, 2024. Week 2 of 2024: Jan 8-14, 2024.
    let week1_ts = 1704067200i64; // 2024-01-01 00:00:00 UTC (Monday)
    let week1_ts2 = 1704153600i64; // 2024-01-02 00:00:00 UTC (Tuesday)
    let week2_ts = 1704672000i64; // 2024-01-08 00:00:00 UTC (Monday)

    store
        .save_messages(
            chat_id,
            &vec![
                msg(1, chat_id, week1_ts, "Hello Week 1"),
                msg(2, chat_id, week1_ts2, "Also Week 1"),
                msg(3, chat_id, week2_ts, "Hello Week 2"),
            ],
        )
        .unwrap();

    let weeks = store.get_messages_by_week(chat_id).unwrap();
    assert_eq!(weeks.len(), 2, "Should have 2 distinct weeks");
    assert_eq!(weeks[0].1.len(), 2, "Week 1 should have 2 messages");
    assert_eq!(weeks[1].1.len(), 1, "Week 2 should have 1 message");
    assert_eq!(weeks[0].0.as_str(), "2024-01");
    assert_eq!(weeks[1].0.as_str(), "2024-02");
}

#[test]
fn test_analysis_idempotency() {
    let mut store = Store::new();
    let chat_id = 123i64;

    store
        .save_messages(chat_id, &vec![msg(1, chat_id, 1704067200, "Hello")])
        .unwrap();

    let unanalyzed = store.get_unanalyzed_weeks(chat_id).unwrap();
    assert!(
        !unanalyzed.is_empty(),
        "Week should be unanalyzed initially"
    );
    let week = unanalyzed[0].as_str().to_string();

    store.save_analysis(&result_for(chat_id, &week)).unwrap();

    let unanalyzed_after = store.get_unanalyzed_weeks(chat_id).unwrap();
    assert!(
        unanalyzed_after.is_empty(),
        "Week should NOT appear after being analyzed"
    );
}

#[test]
fn test_service_message_filtering() {
    let mut store = Store::new();
    let chat_id = 123i64;
    let ts = 1704067200i64;

    store
        .save_messages(
            chat_id,
            &vec![
                msg(1, chat_id, ts, "Hello world"),
                msg(2, chat_id, ts, "User joined the group"),
                msg(3, chat_id, ts, "Admin left the group via invite link"),
                msg(4, chat_id, ts, ""),
            ],
        )
        .unwrap();

    let weeks = store.get_messages_by_week(chat_id).unwrap();
    let total: usize = weeks.iter().map(|(_, v)| v.len()).sum();
    assert_eq!(
        total, 1,
        "Only the regular message should remain after filtering"
    );
    assert_eq!(weeks[0].1[0].text, "Hello world");
}

#[test]
fn test_save_is_insert_or_ignore() {
    let mut store = Store::new();
    store
        .save_messages(7, &vec![msg(10, 7, 100, "first version")])
        .unwrap();
    store
        .save_messages(7, &vec![msg(10, 7, 200, "second observation")])
        .unwrap();

    let rows = store.get_messages(7, 10, 0).unwrap();
    assert_eq!(rows.len(), 1, "one row per (chat_id, id)");
    assert_eq!(rows[0].text, "first version");
}

#[test]
fn test_get_messages_newest_first_with_paging() {
    let mut store = Store::new();
    store
        .save_messages(
            1,
            &vec![
                msg(1, 1, 100, "oldest"),
                msg(2, 1, 300, "newest"),
                msg(3, 1, 200, "middle"),
            ],
        )
        .unwrap();
    store.save_messages(2, &vec![msg(9, 2, 999, "other chat")]).unwrap();

    let rows = store.get_messages(1, 10, 0).unwrap();
    assert_eq!(rows.len(), 3);
    assert_eq!(rows[0].text, "newest");
    assert_eq!(rows[1].text, "middle");
    assert_eq!(rows[2].text, "oldest");

    let page = store.get_messages(1, 1, 1).unwrap();
    assert_eq!(page.len(), 1);
    assert_eq!(page[0].text, "middle");
}

#[test]
fn test_blacklist_and_targets_replace() {
    let mut store = Store::new();
    store.update_blacklist(vec![1, 2, 2, 3]).unwrap();
    let mut b = store.get_blacklisted_ids().unwrap();
    b.sort();
    assert_eq!(b, vec![1, 2, 3]);

    store.update_blacklist(vec![5]).unwrap();
    assert_eq!(store.get_blacklisted_ids().unwrap(), vec![5]);

    store.update_targets(vec![10, 20]).unwrap();
    let mut t = store.get_target_ids().unwrap();
    t.sort();
    assert_eq!(t, vec![10, 20]);
}

#[test]
fn test_entity_registry_upsert() {
    let mut store = Store::new();
    assert_eq!(store.get_access_hash(99).unwrap(), None);

    store.save_entity(99, 1234, "user", Some("alice")).unwrap();
    assert_eq!(store.get_access_hash(99).unwrap(), Some(1234));

    store.save_entity(99, 5678, "user", None).unwrap();
    assert_eq!(store.get_access_hash(99).unwrap(), Some(5678));
}

#[test]
fn test_get_analysis_roundtrip() {
    let mut store = Store::new();
    let res = result_for(500, "2024-01");
    store.save_analysis(&res).unwrap();

    let back = store
        .get_analysis(500, &WeekGroup::new("2024-01".to_string()))
        .unwrap()
        .expect("analysis should be stored");
    assert_eq!(back.summary, "Test summary");
    assert_eq!(back.chat_id, 500);

    let missing = store
        .get_analysis(500, &WeekGroup::new("2024-09".to_string()))
        .unwrap();
    assert!(missing.is_none());
}

#[test]
fn test_dedup_latest_by_id_keeps_last() {
    let rows = vec![
        msg(1, 5, 100, "first"),
        msg(2, 5, 110, "other"),
        msg(1, 5, 120, "edited"),
    ];
    let out = dedup_latest_by_id(rows);
    assert_eq!(out.len(), 2);
    let one = out.iter().find(|m| m.id == 1).unwrap();
    assert_eq!(one.text, "edited");
}

#[test]
fn test_checkpoint_map_defaults_and_updates() {
    let mut cp = CheckpointMap::new();
    assert_eq!(cp.get_last_message_id(9).unwrap(), 0);
    cp.set_last_message_id(9, 15).unwrap();
    cp.set_last_message_id(4, 7).unwrap();
    assert_eq!(cp.get_last_message_id(9).unwrap(), 15);
    assert_eq!(cp.get_last_message_id(4).unwrap(), 7);
    cp.set_last_message_id(9, 20).unwrap();
    assert_eq!(cp.get_last_message_id(9).unwrap(), 20);
}
