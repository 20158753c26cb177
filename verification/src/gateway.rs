//! Gateway-side policy and mapping helpers: the FloodWait threshold split,
//! the history paging anchor, and the plain-value constructors the platform
//! adapter maps its types through.

use vstd::prelude::*;
use crate::domain::{Chat, ChatType, MediaType};
use crate::textutil::{spec_starts_with, str_eq, str_starts_with};

verus! {

/// FloodWait threshold in seconds: shorter waits are slept in place, longer
/// ones are surfaced so the scheduler above can requeue.
pub const FLOOD_WAIT_THRESHOLD_SECS: u64 = 60;

/// Throttle retries before the gateway gives up on a request.
pub const FLOOD_MAX_RETRIES: u32 = 3;

/// What the gateway does with a platform throttle.
#[derive(Debug, Clone, Copy, PartialEq, Eq, Structural)]
pub enum FloodDecision {
    /// Sleep the given seconds in place, then retry the same request.
    SleepRetry { seconds: u64 },
    /// Surface `FloodWait { seconds }` without sleeping.
    Surface { seconds: u64 },
    /// Short retries are exhausted: fail the request.
    GiveUp,
}

/// Decides a throttle of `wait_secs` seconds on retry number `attempt`
/// (counted from 0): waits at or over the threshold are surfaced, short
/// waits are slept and retried up to [`FLOOD_MAX_RETRIES`] times.
pub fn flood_decision(attempt: u32, wait_secs: u64, threshold_secs: u64) -> (r: FloodDecision)
    ensures
        wait_secs >= threshold_secs ==> r == (FloodDecision::Surface { seconds: wait_secs }),
        wait_secs < threshold_secs && attempt < FLOOD_MAX_RETRIES ==> r == (
        FloodDecision::SleepRetry { seconds: wait_secs }),
        wait_secs < threshold_secs && attempt >= FLOOD_MAX_RETRIES ==> r == FloodDecision::GiveUp,
{
    if wait_secs >= threshold_secs {
        FloodDecision::Surface { seconds: wait_secs }
    } else if attempt < FLOOD_MAX_RETRIES {
        FloodDecision::SleepRetry { seconds: wait_secs }
    } else {
        FloodDecision::GiveUp
    }
}

/// The paging anchor of a history request: backward pagination anchors at
/// the upper bound, the newest page anchors at 0.
pub fn history_offset_id(max_id: i32) -> (r: i32)
    ensures
        max_id > 0 ==> r == max_id,
        max_id <= 0 ==> r == 0,
{
    if max_id > 0 {
        max_id
    } else {
        0
    }
}

/// The timestamp shown for a message: the edit date when the message was
/// edited, so the current view reflects the last edit.
pub fn effective_date(date: i64, edit_date: Option<i64>) -> (r: i64)
    ensures
        r == (match edit_date {
            Option::Some(d) => d,
            Option::None => date,
        }),
{
    match edit_date {
        Option::Some(d) => d,
        Option::None => date,
    }
}

/// The media kind of a document, from its MIME type.
pub open spec fn spec_media_type_for_mime(mime: Seq<char>) -> MediaType {
    if spec_starts_with(mime, "video/"@) {
        MediaType::Video
    } else if spec_starts_with(mime, "audio/"@) {
        MediaType::Audio
    } else if mime == "application/x-tgsticker"@ {
        MediaType::Sticker
    } else {
        MediaType::Document
    }
}

/// Classifies a document's MIME type into a media kind.
pub fn media_type_for_mime(mime: &str) -> (r: MediaType)
    ensures
        r == spec_media_type_for_mime(mime@),
{
    if str_starts_with(mime, "video/") {
        MediaType::Video
    } else if str_starts_with(mime, "audio/") {
        MediaType::Audio
    } else if str_eq(mime, "application/x-tgsticker") {
        MediaType::Sticker
    } else {
        MediaType::Document
    }
}

/// Builds a domain chat from dialog fields, with the approximate message
/// count heuristic taken from the dialog's last message id.
pub fn dialog_to_chat(
    id: i64,
    name: &str,
    username: Option<&str>,
    kind: ChatType,
    approx_message_count: Option<i32>,
) -> (r: Chat)
    ensures
        r.id == id,
        r.title@ == name@,
        crate::domain::opt_text_view(r.username) == (match username {
            Option::Some(u) => Option::Some(u@),
            Option::None => Option::None::<Seq<char>>,
        }),
        r.kind == kind,
        r.approx_message_count == approx_message_count,
{
    let username_owned: Option<String> = match username {
        Option::Some(u) => Option::Some(u.to_owned()),
        Option::None => Option::None,
    };
    Chat { id, title: name.to_owned(), username: username_owned, kind, approx_message_count }
}

/// Builds a domain chat from dialog fields without a message-count
/// heuristic.
pub fn dialog_to_chat_from_ref(id: i64, name: &str, username: Option<&str>, kind: ChatType) -> (r:
    Chat)
    ensures
        r.id == id,
        r.title@ == name@,
        r.kind == kind,
        r.approx_message_count is None,
{
    dialog_to_chat(id, name, username, kind, None)
}

} // verus!
