use std::cell::RefCell;
use tg_sync::gateway::{flood_decision, FloodDecision, FLOOD_WAIT_THRESHOLD_SECS};

use tg_sync::domain::{Chat, DomainError, MediaReference, MediaType, Message};
use tg_sync::media::{
    download_one, extension_for_media_type, media_filename, DownloadOutcome, MediaChannel,
    TrySendOutcome,
};
use tg_sync::ports::{Pacer, TgGateway};

fn media_ref(chat_id: i64, message_id: i32, kind: MediaType) -> MediaReference {
    MediaReference {
        message_id,
        chat_id,
        media_type: kind,
        opaque_ref: format!("{}:{}", chat_id, message_id),
    }
}

#[test]
fn test_extension_table() {
    assert_eq!(extension_for_media_type(MediaType::Photo), "jpg");
    assert_eq!(extension_for_media_type(MediaType::Video), "mp4");
    assert_eq!(extension_for_media_type(MediaType::Document), "bin");
    assert_eq!(extension_for_media_type(MediaType::Audio), "ogg");
    assert_eq!(extension_for_media_type(MediaType::Voice), "ogg");
    assert_eq!(extension_for_media_type(MediaType::Sticker), "webp");
    assert_eq!(extension_for_media_type(MediaType::Animation), "mp4");
    assert_eq!(extension_for_media_type(MediaType::Other), "bin");
}

#[test]
fn test_media_filename() {
    assert_eq!(media_filename(&media_ref(123, 45, MediaType::Photo)), "123_45.jpg");
    assert_eq!(media_filename(&media_ref(-7, 9, MediaType::Video)), "-7_9.mp4");
}

#[test]
fn test_backpressure_capacity_two() {
    // Channel capacity 2, consumer blocked: of five offers exactly two are
    // resident and the rest must wait; freeing one slot admits exactly one
    // more.
    let mut ch = MediaChannel::new(2);
    let mut outcomes = Vec::new();
    for i in 0..5 {
        outcomes.push(ch.try_send(media_ref(1, i, MediaType::Photo)));
    }
    assert_eq!(outcomes[0], TrySendOutcome::Queued);
    assert_eq!(outcomes[1], TrySendOutcome::Queued);
    assert_eq!(outcomes[2], TrySendOutcome::Full);
    assert_eq!(outcomes[3], TrySendOutcome::Full);
    assert_eq!(outcomes[4], TrySendOutcome::Full);
    assert_eq!(ch.len(), 2);

    let taken = ch.try_recv().expect("a queued reference");
    assert_eq!(taken.message_id, 0);
    assert_eq!(ch.try_send(media_ref(1, 9, MediaType::Photo)), TrySendOutcome::Queued);
    assert_eq!(ch.len(), 2);
}

#[test]
fn test_channel_close() {
    let mut ch = MediaChannel::new(1);
    ch.close();
    assert_eq!(ch.try_send(media_ref(1, 1, MediaType::Photo)), TrySendOutcome::Closed);
}

struct CountingGateway {
    downloads: RefCell<usize>,
    fail_first: RefCell<usize>,
}

impl TgGateway for CountingGateway {
    fn get_dialogs(&self) -> Result<Vec<Chat>, DomainError> {
        Ok(Vec::new())
    }

    fn get_messages(
        &self,
        _chat_id: i64,
        _min_id: i32,
        _max_id: i32,
        _limit: i32,
    ) -> Result<Vec<Message>, DomainError> {
        Ok(Vec::new())
    }

    fn download_media(&self, _m: &MediaReference, _d: &str) -> Result<(), DomainError> {
        *self.downloads.borrow_mut() += 1;
        let mut fails = self.fail_first.borrow_mut();
        if *fails > 0 {
            *fails -= 1;
            Err(DomainError::Media("transient".to_string()))
        } else {
            Ok(())
        }
    }

    fn get_me_id(&self) -> Result<i64, DomainError> {
        Ok(1)
    }

    fn send_message(&self, _chat_id: i64, _text: &str) -> Result<(), DomainError> {
        Ok(())
    }
}

struct NoSleep;

impl Pacer for NoSleep {
    fn sleep_ms(&self, _ms: u64) {}
}

#[test]
fn test_download_skips_existing_destination() {
    let gw = CountingGateway { downloads: RefCell::new(0), fail_first: RefCell::new(0) };
    let r = media_ref(1, 2, MediaType::Photo);
    let out = download_one(&gw, &NoSleep, &r, "1_2.jpg", true);
    assert!(matches!(out, DownloadOutcome::SkippedExisting));
    assert_eq!(*gw.downloads.borrow(), 0, "gateway must not be invoked");
}

#[test]
fn test_download_retries_then_succeeds() {
    let gw = CountingGateway { downloads: RefCell::new(0), fail_first: RefCell::new(2) };
    let r = media_ref(1, 2, MediaType::Photo);
    let out = download_one(&gw, &NoSleep, &r, "1_2.jpg", false);
    assert!(matches!(out, DownloadOutcome::Downloaded));
    assert_eq!(*gw.downloads.borrow(), 3);
}

#[test]
fn test_download_gives_up_after_retries() {
    let gw = CountingGateway { downloads: RefCell::new(0), fail_first: RefCell::new(10) };
    let r = media_ref(1, 2, MediaType::Photo);
    let out = download_one(&gw, &NoSleep, &r, "1_2.jpg", false);
    match out {
        DownloadOutcome::Failed(DomainError::Media(msg)) => {
            assert_eq!(msg, "transient", "the last attempt's error comes back unmodified");
        }
        other => panic!("expected the last error back, got {:?}", other),
    }
    assert_eq!(*gw.downloads.borrow(), 4, "one try plus three retries");
}

#[test]
fn test_flood_decision_policy() {
    assert_eq!(
        flood_decision(0, 300, FLOOD_WAIT_THRESHOLD_SECS),
        FloodDecision::Surface { seconds: 300 }
    );
    assert_eq!(
        flood_decision(0, 5, FLOOD_WAIT_THRESHOLD_SECS),
        FloodDecision::SleepRetry { seconds: 5 }
    );
    assert_eq!(
        flood_decision(2, 5, FLOOD_WAIT_THRESHOLD_SECS),
        FloodDecision::SleepRetry { seconds: 5 }
    );
    assert_eq!(flood_decision(3, 5, FLOOD_WAIT_THRESHOLD_SECS), FloodDecision::GiveUp);
}
