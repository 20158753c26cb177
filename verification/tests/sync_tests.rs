use std::cell::RefCell;

use tg_sync::domain::{Chat, DomainError, MediaReference, Message};
use tg_sync::ports::{MediaSink, Pacer, RepoPort, SendOutcome, StatePort, TgGateway};
use tg_sync::state::CheckpointMap;
use tg_sync::store::Store;
use tg_sync::sync::SyncService;

fn msg(id: i32, chat_id: i64, date: i64, text: &str) -> Message {
    Message {
        id,
        chat_id,
        date,
        text: text.to_string(),
        media: None,
        from_user_id: None,
        reply_to_msg_id: None,
        edit_history: None,
    }
}

/// A scripted gateway: answers history calls from a fixed list, records the
/// requests it saw.
struct ScriptedGateway {
    pages: RefCell<Vec<Result<Vec<Message>, DomainError>>>,
    calls: RefCell<Vec<(i64, i32, i32, i32)>>,
}

impl ScriptedGateway {
    fn new(pages: Vec<Result<Vec<Message>, DomainError>>) -> Self {
        ScriptedGateway {
            pages: RefCell::new(pages),
            calls: RefCell::new(Vec::new()),
        }
    }
}

impl TgGateway for ScriptedGateway {
    fn get_dialogs(&self) -> Result<Vec<Chat>, DomainError> {
        Ok(Vec::new())
    }

    fn get_messages(
        &self,
        chat_id: i64,
        min_id: i32,
        max_id: i32,
        limit: i32,
    ) -> Result<Vec<Message>, DomainError> {
        self.calls.borrow_mut().push((chat_id, min_id, max_id, limit));
        let mut pages = self.pages.borrow_mut();
        if pages.is_empty() {
            Ok(Vec::new())
        } else {
            pages.remove(0)
        }
    }

    fn download_media(&self, _media_ref: &MediaReference, _dest_path: &str) -> Result<(), DomainError> {
        Ok(())
    }

    fn get_me_id(&self) -> Result<i64, DomainError> {
        Ok(1)
    }

    fn send_message(&self, _chat_id: i64, _text: &str) -> Result<(), DomainError> {
        Ok(())
    }
}

struct NullSink;

impl MediaSink for NullSink {
    fn send(&mut self, _media_ref: MediaReference) -> SendOutcome {
        SendOutcome::Accepted
    }
}

struct NoSleep;

impl Pacer for NoSleep {
    fn sleep_ms(&self, _ms: u64) {}
}

#[test]
fn test_clean_initial_sync() {
    // Two pages: the newest page, then an empty one below it.
    let gw = ScriptedGateway::new(vec![
        Ok(vec![msg(10, 100, 5, "a"), msg(12, 100, 6, "b"), msg(15, 100, 7, "c")]),
        Ok(vec![]),
    ]);
    let mut store = Store::new();
    let mut cp = CheckpointMap::new();
    let mut sink = NullSink;
    let pacer = NoSleep;
    let engine = SyncService::new(0);

    let stats = engine
        .sync_chat(&gw, &mut store, &mut cp, &mut sink, &pacer, 100, 100, false)
        .unwrap();

    assert_eq!(stats.messages_synced, 3);
    assert_eq!(stats.media_queued, 0);
    assert_eq!(store.get_messages(100, 10, 0).unwrap().len(), 3);
    assert_eq!(cp.get_last_message_id(100).unwrap(), 15);
    let calls = gw.calls.borrow();
    assert_eq!(calls[0], (100, 0, 0, 100));
    assert_eq!(calls[1], (100, 0, 10, 100));
}

#[test]
fn test_resume_with_prior_data() {
    // Store already holds rows up to id 50 and the checkpoint stands at 50.
    let mut store = Store::new();
    let mut batch = Vec::new();
    for id in 1..=50 {
        batch.push(msg(id, 200, id as i64, "old"));
    }
    store.save_messages(200, &batch).unwrap();
    let mut cp = CheckpointMap::new();
    cp.set_last_message_id(200, 50).unwrap();

    let gw = ScriptedGateway::new(vec![
        Ok(vec![msg(55, 200, 55, "n1"), msg(60, 200, 60, "n2"), msg(70, 200, 70, "n3")]),
        Ok(vec![msg(51, 200, 51, "n4"), msg(52, 200, 52, "n5")]),
        Ok(vec![]),
    ]);
    let mut sink = NullSink;
    let pacer = NoSleep;
    let engine = SyncService::new(0);

    engine
        .sync_chat(&gw, &mut store, &mut cp, &mut sink, &pacer, 200, 100, false)
        .unwrap();

    let rows = store.get_messages(200, 100, 0).unwrap();
    assert_eq!(rows.len(), 55);
    for id in [51, 52, 55, 60, 70] {
        assert!(store.has_row(200, id));
    }
    assert_eq!(cp.get_last_message_id(200).unwrap(), 70);
    let calls = gw.calls.borrow();
    assert_eq!(calls[0], (200, 50, 0, 100));
    assert_eq!(calls[1], (200, 50, 55, 100));
}

#[test]
fn test_client_side_boundary_enforcement() {
    // The platform ignores min_id and returns one row at or below it.
    let gw = ScriptedGateway::new(vec![Ok(vec![
        msg(90, 300, 1, "below"),
        msg(105, 300, 2, "in"),
        msg(110, 300, 3, "in"),
    ])]);
    let mut store = Store::new();
    let mut cp = CheckpointMap::new();
    cp.set_last_message_id(300, 100).unwrap();
    let mut sink = NullSink;
    let pacer = NoSleep;
    let engine = SyncService::new(0);

    let stats = engine
        .sync_chat(&gw, &mut store, &mut cp, &mut sink, &pacer, 300, 100, false)
        .unwrap();

    assert_eq!(stats.messages_synced, 2);
    assert!(!store.has_row(300, 90), "out-of-range row must not persist");
    assert!(store.has_row(300, 105));
    assert!(store.has_row(300, 110));
    assert_eq!(cp.get_last_message_id(300).unwrap(), 110);
    assert_eq!(gw.calls.borrow().len(), 1, "reached_min ends the walk");
}

#[test]
fn test_flood_wait_surfaces_unchanged() {
    let gw = ScriptedGateway::new(vec![Err(DomainError::FloodWait { seconds: 300 })]);
    let mut store = Store::new();
    let mut cp = CheckpointMap::new();
    let mut sink = NullSink;
    let pacer = NoSleep;
    let engine = SyncService::new(0);

    let err = engine
        .sync_chat(&gw, &mut store, &mut cp, &mut sink, &pacer, 400, 100, false)
        .unwrap_err();

    assert!(matches!(err, DomainError::FloodWait { seconds: 300 }));
    assert_eq!(cp.get_last_message_id(400).unwrap(), 0);
    assert_eq!(store.get_messages(400, 10, 0).unwrap().len(), 0);
}

#[test]
fn test_checkpoint_is_monotone_across_batches() {
    // Backward pagination: the first page carries the global maximum; the
    // checkpoint must never regress when older pages are persisted.
    let gw = ScriptedGateway::new(vec![
        Ok(vec![msg(30, 1, 1, "a"), msg(31, 1, 2, "b")]),
        Ok(vec![msg(10, 1, 3, "c"), msg(11, 1, 4, "d")]),
        Ok(vec![]),
    ]);
    let mut store = Store::new();
    let mut cp = CheckpointMap::new();
    let mut sink = NullSink;
    let pacer = NoSleep;
    let engine = SyncService::new(0);

    engine
        .sync_chat(&gw, &mut store, &mut cp, &mut sink, &pacer, 1, 100, false)
        .unwrap();

    assert_eq!(cp.get_last_message_id(1).unwrap(), 31);
    // every persisted row sits at or below the checkpoint
    for row in store.get_messages(1, 100, 0).unwrap() {
        assert!(row.id <= 31);
    }
}

#[test]
fn test_media_refs_are_offered_in_media_mode() {
    struct CountingSink(usize);
    impl MediaSink for CountingSink {
        fn send(&mut self, _m: MediaReference) -> SendOutcome {
            self.0 += 1;
            SendOutcome::Accepted
        }
    }
    let mut with_media = msg(5, 9, 1, "pic");
    with_media.media = Some(MediaReference {
        message_id: 5,
        chat_id: 9,
        media_type: tg_sync::domain::MediaType::Photo,
        opaque_ref: "9:5".to_string(),
    });
    let gw = ScriptedGateway::new(vec![Ok(vec![with_media]), Ok(vec![])]);
    let mut store = Store::new();
    let mut cp = CheckpointMap::new();
    let mut sink = CountingSink(0);
    let pacer = NoSleep;
    let engine = SyncService::new(0);

    let stats = engine
        .sync_chat(&gw, &mut store, &mut cp, &mut sink, &pacer, 9, 100, true)
        .unwrap();
    assert_eq!(stats.media_queued, 1);
    assert_eq!(sink.0, 1);
}
