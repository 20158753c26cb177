use tg_sync::analysis::tracker_description;
use tg_sync::analysis::render_report;
use tg_sync::ports::AiPort;
use tg_sync::analysis::{AnalysisService, MockAiAdapter};
use tg_sync::domain::{ActionItem, AnalysisResult, DomainError, Message, WeekGroup};
use tg_sync::ports::TaskTrackerPort;
use tg_sync::store::Store;

fn msg(id: i32, chat_id: i64, date: i64, text: &str) -> Message {
    Message {
        id,
        chat_id,
        date,
        text: text.to_string(),
        media: None,
        from_user_id: Some(123),
        reply_to_msg_id: None,
        edit_history: None,
    }
}

struct NoTracker;

impl TaskTrackerPort for NoTracker {
    fn create_task(&self, _t: &str, _d: &str, _due: Option<String>) -> Result<(), DomainError> {
        Ok(())
    }
}

#[test]
fn test_mock_adapter() {
    let adapter = MockAiAdapter::with_delay(10);
    let week = WeekGroup::new("2024-01".to_string());
    let csv = "Date;User;Message\n2024-01-01;123;Hello";

    let result = adapter.analyze(123, &week, csv).unwrap();

    assert_eq!(result.chat_id, 123);
    assert_eq!(result.week_group, week);
    assert!(!result.summary.is_empty());
    assert_eq!(result.key_topics.len(), 3);
    assert_eq!(result.action_items.len(), 2);
}

#[test]
fn test_mock_summary_counts_rows() {
    let adapter = MockAiAdapter::new();
    let week = WeekGroup::new("2024-01".to_string());
    let csv = "Date;User;Message\n2024-01-01;1;a\n2024-01-01;2;b";
    let result = adapter.analyze(500, &week, csv).unwrap();
    assert!(result.summary.contains("2 messages"));
    assert!(result.summary.contains("2024-01"));
}

#[test]
fn test_analysis_is_idempotent_without_new_messages() {
    // A populated week: the first run analyzes and logs it, the second run
    // finds nothing unanalyzed and emits no report.
    let mut store = Store::new();
    store
        .save_messages(500, &vec![msg(1, 500, 1704067200, "hello"), msg(2, 500, 1704070000, "world")])
        .unwrap();

    let service: AnalysisService<MockAiAdapter, NoTracker> =
        AnalysisService::new(MockAiAdapter::with_delay(0), "reports".to_string(), None);

    let first = service.analyze_chat(&mut store, 500, false).unwrap();
    assert_eq!(first.len(), 1);
    assert_eq!(first[0].filename, "analysis_500_2024-01.md");
    assert!(first[0].markdown.contains("# Weekly Digest: 2024-01"));

    let logged = store
        .get_analysis(500, &WeekGroup::new("2024-01".to_string()))
        .unwrap();
    assert!(logged.is_some(), "the week must be logged");

    let second = service.analyze_chat(&mut store, 500, false).unwrap();
    assert!(second.is_empty(), "no new LLM work on the second run");
}

#[test]
fn test_single_week_mode_takes_latest() {
    let mut store = Store::new();
    store
        .save_messages(
            600,
            &vec![msg(1, 600, 1704067200, "week one"), msg(2, 600, 1704672000, "week two")],
        )
        .unwrap();
    let service: AnalysisService<MockAiAdapter, NoTracker> =
        AnalysisService::new(MockAiAdapter::with_delay(0), "reports".to_string(), None);

    let reports = service.analyze_chat(&mut store, 600, true).unwrap();
    assert_eq!(reports.len(), 1);
    assert_eq!(reports[0].filename, "analysis_600_2024-02.md");

    // the earlier week stays unanalyzed
    let left = store.get_unanalyzed_weeks(600).unwrap();
    assert_eq!(left.len(), 1);
    assert_eq!(left[0].as_str(), "2024-01");
}

#[test]
fn test_reports_render_the_logged_entry() {
    // Each returned report answers to the entry the log now holds: its file
    // name follows the naming rule and its Markdown renders that entry.
    let mut store = Store::new();
    store
        .save_messages(700, &vec![msg(1, 700, 1704067200, "hello")])
        .unwrap();
    let service: AnalysisService<MockAiAdapter, NoTracker> =
        AnalysisService::new(MockAiAdapter::with_delay(0), "reports".to_string(), None);
    let reports = service.analyze_chat(&mut store, 700, false).unwrap();
    assert_eq!(reports.len(), 1);
    let entry = store
        .get_analysis(700, &WeekGroup::new("2024-01".to_string()))
        .unwrap()
        .expect("the week is logged");
    assert_eq!(reports[0].filename, tg_sync::analysis::report_filename(&entry));
    assert_eq!(reports[0].markdown, render_report(&entry));
}

#[test]
fn test_analyze_week_chunks_rejects_empty() {
    let service: AnalysisService<MockAiAdapter, NoTracker> =
        AnalysisService::new(MockAiAdapter::with_delay(0), "reports".to_string(), None);
    let week = WeekGroup::new("2024-01".to_string());
    let err = service
        .analyze_week_chunks(1, &week, &Vec::new())
        .unwrap_err();
    assert!(matches!(err, DomainError::Ai(_)));
}

#[test]
fn test_join_blank_lines_payload() {
    let parts = vec!["one".to_string(), "two".to_string(), "three".to_string()];
    assert_eq!(tg_sync::analysis::join_blank_lines(&parts), "one\n\ntwo\n\nthree");
    let empty: Vec<String> = Vec::new();
    assert_eq!(tg_sync::analysis::join_blank_lines(&empty), "");
    assert_eq!(tg_sync::analysis::join_blank_lines(&vec!["solo".to_string()]), "solo");
}

#[test]
fn test_render_report_sections() {
    let result = AnalysisResult {
        week_group: WeekGroup::new("2024-05".to_string()),
        chat_id: 42,
        summary: "A quiet week.".to_string(),
        key_topics: vec!["planning".to_string(), "bugs".to_string()],
        action_items: vec![ActionItem {
            description: "Ship it".to_string(),
            owner: Some("Ana".to_string()),
            deadline: Some("Friday".to_string()),
            priority: Some("high".to_string()),
        }],
        analyzed_at: 1704067200,
    };
    let md = render_report(&result);
    assert!(md.contains("# Weekly Digest: 2024-05"));
    assert!(md.contains("**Chat ID:** 42 | **Analyzed:** 2024-01-01 00:00 UTC"));
    assert!(md.contains("## Summary\n\nA quiet week."));
    assert!(md.contains("- planning\n- bugs\n"));
    assert!(md.contains("- [ ] **Ship it** (Owner: Ana, Due: Friday, Priority: high)"));
    assert!(md.ends_with("---\n*Generated by tg-sync AI Analysis*\n"));
}

#[test]
fn test_tracker_description_format() {
    let item = ActionItem {
        description: "Fix the build".to_string(),
        owner: Some("Bo".to_string()),
        deadline: None,
        priority: Some("low".to_string()),
    };
    let week = WeekGroup::new("2024-07".to_string());
    assert_eq!(
        tracker_description(&item, &week),
        "Owner: Bo\nPriority: low\n\nWeek: 2024-07"
    );

    let bare = ActionItem {
        description: "Nothing else".to_string(),
        owner: None,
        deadline: None,
        priority: None,
    };
    assert_eq!(tracker_description(&bare, &week), "");
}
