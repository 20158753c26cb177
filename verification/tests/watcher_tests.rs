use std::cell::RefCell;
use tg_sync::fsrepo::FsRepo;
use tg_sync::gateway::{dialog_to_chat, effective_date, history_offset_id, media_type_for_mime};
use tg_sync::domain::MediaType;
use tg_sync::config::AppConfig;

use tg_sync::domain::{Chat, ChatType, DomainError, MediaReference, Message};
use tg_sync::ports::{MediaSink, Pacer, SendOutcome, TgGateway};
use tg_sync::resolver::{PeerResolver, ResolveAction};
use tg_sync::state::CheckpointMap;
use tg_sync::store::Store;
use tg_sync::sync::SyncService;
use tg_sync::watcher::{alert_text, find_keyword, truncate_message, CycleOutcome, WatcherService};

fn msg(id: i32, chat_id: i64, date: i64, text: &str) -> Message {
    Message {
        id,
        chat_id,
        date,
        text: text.to_string(),
        media: None,
        from_user_id: None,
        reply_to_msg_id: None,
        edit_history: None,
    }
}

#[test]
fn test_find_keyword_case_insensitive() {
    assert_eq!(find_keyword("this is URGENT stuff"), Some("Urgent"));
    assert_eq!(find_keyword("a bug crawled in"), Some("Bug"));
    assert_eq!(find_keyword("ERROR: production is down"), Some("Error"));
    assert_eq!(find_keyword("deployed to Production"), Some("Production"));
    assert_eq!(find_keyword("all quiet"), None);
}

#[test]
fn test_find_keyword_order() {
    // keyword-list order decides when several match
    assert_eq!(find_keyword("bug in production, urgent!"), Some("Urgent"));
}

#[test]
fn test_truncate_message() {
    assert_eq!(truncate_message("  hi  "), "hi");
    let long = "x".repeat(250);
    let cut = truncate_message(&long);
    assert_eq!(cut.len(), 203);
    assert!(cut.ends_with("..."));
    assert!(cut.starts_with(&"x".repeat(200)));
}

#[test]
fn test_alert_text() {
    assert_eq!(
        alert_text("Urgent", "Team", "  fix now  "),
        "[ALERT] Keyword 'Urgent' found in chat 'Team': fix now"
    );
}

struct WatchGateway {
    page_given: RefCell<bool>,
    sent: RefCell<Vec<(i64, String)>>,
}

impl TgGateway for WatchGateway {
    fn get_dialogs(&self) -> Result<Vec<Chat>, DomainError> {
        Ok(vec![Chat {
            id: 100,
            title: "Ops".to_string(),
            username: None,
            kind: ChatType::Group,
            approx_message_count: None,
        }])
    }

    fn get_messages(
        &self,
        chat_id: i64,
        _min_id: i32,
        _max_id: i32,
        _limit: i32,
    ) -> Result<Vec<Message>, DomainError> {
        let mut given = self.page_given.borrow_mut();
        if *given {
            Ok(Vec::new())
        } else {
            *given = true;
            Ok(vec![msg(7, chat_id, 1, "urgent: disk full")])
        }
    }

    fn download_media(&self, _m: &MediaReference, _d: &str) -> Result<(), DomainError> {
        Ok(())
    }

    fn get_me_id(&self) -> Result<i64, DomainError> {
        Ok(999)
    }

    fn send_message(&self, chat_id: i64, text: &str) -> Result<(), DomainError> {
        self.sent.borrow_mut().push((chat_id, text.to_string()));
        Ok(())
    }
}

struct NullSink;

impl MediaSink for NullSink {
    fn send(&mut self, _m: MediaReference) -> SendOutcome {
        SendOutcome::Accepted
    }
}

struct NoSleep;

impl Pacer for NoSleep {
    fn sleep_ms(&self, _ms: u64) {}
}

#[test]
fn test_watcher_cycle_sends_alert() {
    let gw = WatchGateway { page_given: RefCell::new(false), sent: RefCell::new(Vec::new()) };
    let mut store = Store::new();
    store.update_targets(vec![100]).unwrap();
    let mut cp = CheckpointMap::new();
    let mut sink = NullSink;
    let pacer = NoSleep;
    let watcher = WatcherService::new(SyncService::new(0), 600);

    let outcome = watcher
        .run_cycle(&gw, &mut store, &mut cp, &mut sink, &pacer, 999)
        .unwrap();

    assert_eq!(outcome, CycleOutcome::Ran);
    let sent = gw.sent.borrow();
    assert_eq!(sent.len(), 1);
    assert_eq!(sent[0].0, 999);
    assert_eq!(
        sent[0].1,
        "[ALERT] Keyword 'Urgent' found in chat 'Ops': urgent: disk full"
    );
}

#[test]
fn test_watcher_cycle_no_targets() {
    let gw = WatchGateway { page_given: RefCell::new(false), sent: RefCell::new(Vec::new()) };
    let mut store = Store::new();
    let mut cp = CheckpointMap::new();
    let mut sink = NullSink;
    let pacer = NoSleep;
    let watcher = WatcherService::new(SyncService::new(0), 600);

    let outcome = watcher
        .run_cycle(&gw, &mut store, &mut cp, &mut sink, &pacer, 999)
        .unwrap();
    assert_eq!(outcome, CycleOutcome::NoTargets);
    assert!(gw.sent.borrow().is_empty());
}

#[test]
fn test_singleflight_resolver() {
    // Concurrent resolutions of one chat: the first caller leads, later
    // callers wait, and after completion everyone reads the same peer.
    let mut resolver: PeerResolver<u64> = PeerResolver::new();
    assert_eq!(resolver.begin(42), ResolveAction::Lead);
    assert_eq!(resolver.begin(42), ResolveAction::Wait);
    assert_eq!(resolver.begin(42), ResolveAction::Wait);
    assert_eq!(resolver.begin(7), ResolveAction::Lead, "other chats lead independently");

    resolver.complete(42, 0xA11CE);
    assert_eq!(resolver.begin(42), ResolveAction::UseCached);
    assert_eq!(resolver.lookup(42), Some(&0xA11CE));

    // a failed leader releases the flight so a later caller retries
    resolver.fail(7);
    assert_eq!(resolver.begin(7), ResolveAction::Lead);
}

#[test]
fn test_config_defaults() {
    let cfg = AppConfig::default();
    assert_eq!(cfg.watcher_cycle_secs_or_default(), 600);
    assert_eq!(cfg.sync_delay_ms_or_default(), 500);
    assert_eq!(cfg.media_queue_size_or_default(), 1000);
    assert!(!cfg.is_ai_configured());
    assert!(!cfg.is_trello_configured());
    assert_eq!(
        cfg.ai_api_url_or_default(),
        "https://api.openai.com/v1/chat/completions"
    );
    assert_eq!(cfg.ai_model_or_default(), "gpt-4o-mini");
}

#[test]
fn test_misc_mapping_helpers() {

    assert_eq!(history_offset_id(0), 0);
    assert_eq!(history_offset_id(55), 55);
    assert_eq!(effective_date(10, None), 10);
    assert_eq!(effective_date(10, Some(20)), 20);
    assert_eq!(media_type_for_mime("video/mp4"), MediaType::Video);
    assert_eq!(media_type_for_mime("audio/ogg"), MediaType::Audio);
    assert_eq!(media_type_for_mime("application/x-tgsticker"), MediaType::Sticker);
    assert_eq!(media_type_for_mime("application/pdf"), MediaType::Document);

    let chat = dialog_to_chat(5, "Name", Some("user"), ChatType::Channel, Some(7));
    assert_eq!(chat.id, 5);
    assert_eq!(chat.title, "Name");
    assert_eq!(chat.username.as_deref(), Some("user"));
    assert_eq!(chat.approx_message_count, Some(7));

    let repo = FsRepo::new("data".to_string());
    assert_eq!(repo.chat_path(42), "data/42.jsonl");
}
