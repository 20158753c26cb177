//! The media pipeline: the bounded channel model with backpressure, the
//! destination naming rule, and the retrying downloader.

use vstd::prelude::*;
use crate::domain::{MediaReference, MediaType};
use crate::ports::{Pacer, TgGateway};
use crate::textutil::{spec_dec_i64, push_char};

verus! {

/// Ceiling on concurrent downloads.
pub const MAX_CONCURRENT: usize = 3;

/// Download attempts per reference.
pub const MAX_RETRIES: u32 = 3;

/// Base seconds of the linear retry backoff.
pub const BASE_BACKOFF_SECS: u64 = 2;

/// The file extension chosen for each media kind.
pub open spec fn spec_extension(mt: MediaType) -> Seq<char> {
    match mt {
        MediaType::Photo => "jpg"@,
        MediaType::Video => "mp4"@,
        MediaType::Document => "bin"@,
        MediaType::Audio => "ogg"@,
        MediaType::Voice => "ogg"@,
        MediaType::Sticker => "webp"@,
        MediaType::Animation => "mp4"@,
        MediaType::Other => "bin"@,
    }
}

/// Maps a media kind to its download file extension.
pub fn extension_for_media_type(media_type: MediaType) -> (r: &'static str)
    ensures
        r@ == spec_extension(media_type),
{
    match media_type {
        MediaType::Photo => "jpg",
        MediaType::Video => "mp4",
        MediaType::Document => "bin",
        MediaType::Audio => "ogg",
        MediaType::Voice => "ogg",
        MediaType::Sticker => "webp",
        MediaType::Animation => "mp4",
        MediaType::Other => "bin",
    }
}

/// The destination file name of a media reference:
/// `{chat_id}_{message_id}.{ext}`.
pub open spec fn spec_media_filename(chat_id: int, message_id: int, ext: Seq<char>) -> Seq<char> {
    spec_dec_i64(chat_id) + seq!['_'] + spec_dec_i64(message_id) + seq!['.'] + ext
}

/// Renders the destination file name of a media reference.
pub fn media_filename(media_ref: &MediaReference) -> (r: String)
    ensures
        r@ == spec_media_filename(
            media_ref.chat_id as int,
            media_ref.message_id as int,
            spec_extension(media_ref.media_type),
        ),
{
    let ext = extension_for_media_type(media_ref.media_type);
    let mut s = crate::textutil::fmt_i64(media_ref.chat_id);
    push_char(&mut s, '_');
    let mid = crate::textutil::fmt_i64(media_ref.message_id as i64);
    let mut s = s.concat(mid.as_str());
    push_char(&mut s, '.');
    let r = s.concat(ext);
    proof {
        assert(r@ =~= spec_media_filename(
            media_ref.chat_id as int,
            media_ref.message_id as int,
            spec_extension(media_ref.media_type),
        ));
    }
    r
}

/// Seconds slept after a failed attempt: `(attempt + 1) * BASE_BACKOFF_SECS`.
pub fn backoff_secs(attempt: u32) -> (r: u64)
    requires
        attempt < 4294967295u32,
    ensures
        r as int == (attempt + 1) * 2,
{
    (attempt as u64 + 1) * 2
}

/// The bounded media channel: the sole path between the sync engine and the
/// downloader. Holding at most `cap` references is what makes backpressure
/// possible.
pub struct MediaChannel {
    cap: usize,
    queue: Vec<MediaReference>,
    closed: bool,
}

/// Outcome of a non-blocking enqueue attempt.
#[derive(Debug, Clone, Copy, PartialEq, Eq, Structural)]
pub enum TrySendOutcome {
    /// The reference was queued.
    Queued,
    /// The channel is at capacity; the caller must wait for a slot.
    Full,
    /// The consumer is gone.
    Closed,
}

impl MediaChannel {
    /// The queued references, oldest first.
    pub closed spec fn contents(&self) -> Seq<crate::domain::MediaReferenceView> {
        self.queue@.map_values(|m: MediaReference| m@)
    }

    /// The construction-time capacity bound.
    pub closed spec fn capacity(&self) -> int {
        self.cap as int
    }

    /// Whether the channel was closed.
    pub closed spec fn is_closed(&self) -> bool {
        self.closed
    }

    /// The channel never holds more than its capacity.
    pub closed spec fn wf(&self) -> bool {
        self.queue@.len() <= self.cap
    }

    /// A new bounded channel.
    pub fn new(cap: usize) -> (r: MediaChannel)
        requires
            cap >= 1,
        ensures
            r.wf(),
            r.capacity() == cap as int,
            r.contents() =~= Seq::<crate::domain::MediaReferenceView>::empty(),
            !r.is_closed(),
    {
        MediaChannel { cap, queue: Vec::new(), closed: false }
    }

    /// Number of resident references.
    pub fn len(&self) -> (r: usize)
        ensures
            r as int == self.contents().len(),
    {
        self.queue.len()
    }

    /// Offers one reference without blocking. A full channel takes nothing
    /// and stays exactly as it was — the producer must wait for a slot; a
    /// closed channel takes nothing either.
    pub fn try_send(&mut self, media_ref: MediaReference) -> (r: TrySendOutcome)
        requires
            old(self).wf(),
        ensures
            final(self).wf(),
            final(self).capacity() == old(self).capacity(),
            final(self).is_closed() == old(self).is_closed(),
            r == TrySendOutcome::Closed <==> old(self).is_closed(),
            old(self).is_closed() ==> final(self).contents() == old(self).contents(),
            !old(self).is_closed() && old(self).contents().len() == old(self).capacity() ==> r
                == TrySendOutcome::Full && final(self).contents() == old(self).contents(),
            !old(self).is_closed() && old(self).contents().len() < old(self).capacity() ==> r
                == TrySendOutcome::Queued && final(self).contents() == old(self).contents().push(
                media_ref@,
            ),
    {
        if self.closed {
            return TrySendOutcome::Closed;
        }
        if self.queue.len() >= self.cap {
            return TrySendOutcome::Full;
        }
        let ghost pre = self.queue@;
        self.queue.push(media_ref);
        proof {
            assert(self.contents() =~= pre.map_values(|m: MediaReference| m@).push(
                self.queue@[pre.len() as int]@,
            ));
        }
        TrySendOutcome::Queued
    }

    /// Takes the oldest reference, if any.
    pub fn try_recv(&mut self) -> (r: Option<MediaReference>)
        requires
            old(self).wf(),
        ensures
            final(self).wf(),
            final(self).capacity() == old(self).capacity(),
            final(self).is_closed() == old(self).is_closed(),
            old(self).contents().len() == 0 ==> r is None && final(self).contents() == old(
                self,
            ).contents(),
            old(self).contents().len() > 0 ==> (r matches Some(m) && m@ == old(self).contents()[0]
                && final(self).contents() == old(self).contents().skip(1)),
    {
        if self.queue.len() == 0 {
            return None;
        }
        let ghost pre = self.queue@;
        let m = self.queue.remove(0);
        proof {
            assert(self.contents() =~= pre.map_values(|x: MediaReference| x@).skip(1));
        }
        Some(m)
    }

    /// Closes the channel: no further reference will be taken.
    pub fn close(&mut self)
        requires
            old(self).wf(),
        ensures
            final(self).wf(),
            final(self).capacity() == old(self).capacity(),
            final(self).is_closed(),
            final(self).contents() == old(self).contents(),
    {
        self.closed = true;
    }
}

/// Outcome of processing one media reference.
#[derive(Debug, Clone)]
pub enum DownloadOutcome {
    /// The destination already existed; the gateway was not invoked.
    SkippedExisting,
    /// A download attempt succeeded.
    Downloaded,
    /// Every attempt failed; the pipeline moves on. Carries the last
    /// attempt's error unmodified, so the caller can surface the cause.
    Failed(crate::domain::DomainError),
}

/// Downloads one reference with up to [`MAX_RETRIES`] retries and linear
/// backoff. When the destination already exists the gateway is never
/// invoked — the resume is idempotent. When every attempt fails, the last
/// attempt's error comes back unmodified in [`DownloadOutcome::Failed`].
pub fn download_one<G: TgGateway, P: Pacer>(
    tg: &G,
    pacer: &P,
    media_ref: &MediaReference,
    dest_path: &str,
    dest_exists: bool,
) -> (r: DownloadOutcome)
    ensures
        dest_exists ==> r == DownloadOutcome::SkippedExisting,
        !dest_exists ==> (r == DownloadOutcome::Downloaded || r matches DownloadOutcome::Failed(
            _,
        )),
{
    if dest_exists {
        return DownloadOutcome::SkippedExisting;
    }
    let mut attempt: u32 = 0;
    loop
        invariant
            !dest_exists,
            attempt <= MAX_RETRIES,
        decreases MAX_RETRIES - attempt,
    {
        match tg.download_media(media_ref, dest_path) {
            Ok(()) => {
                return DownloadOutcome::Downloaded;
            },
            Err(e) => {
                if attempt < MAX_RETRIES {
                    let secs = backoff_secs(attempt);
                    pacer.sleep_ms(secs * 1000);
                } else {
                    return DownloadOutcome::Failed(e);
                }
            },
        }
        attempt = attempt + 1;
    }
}

} // verus!
