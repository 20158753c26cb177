//! The incremental history-fill engine: forward sync of one chat from its
//! persisted checkpoint toward the head, paginating with client-side
//! boundary enforcement.
//!
//! The platform's answers are never trusted: every page is filtered to the
//! open interval `(min_id, max_id)` before anything is persisted, the
//! checkpoint only ever advances, and it advances only onto a row that was
//! durably saved first.

use vstd::prelude::*;
use crate::domain::{DomainError, Message, MessageView};
use crate::ports::{
    spec_has_row, spec_row, MediaSink, Pacer, RepoPort, SendOutcome, StatePort, TgGateway,
};

verus! {

/// Result of one chat sync.
#[derive(Debug, Default)]
pub struct SyncStats {
    /// Rows that passed the boundary filter and were handed to the store.
    pub messages_synced: usize,
    /// Media references accepted by the pipeline.
    pub media_queued: usize,
}

/// A message id lies inside the requested open interval; `max_id == 0`
/// means no upper bound.
pub open spec fn spec_in_range(m: MessageView, min_id: int, max_id: int) -> bool {
    m.id > min_id && (max_id == 0 || m.id < max_id)
}

/// The page rows that survive client-side boundary enforcement, in page
/// order.
pub open spec fn spec_filter_range(batch: Seq<MessageView>, min_id: int, max_id: int) -> Seq<
    MessageView,
> {
    batch.filter(|m: MessageView| spec_in_range(m, min_id, max_id))
}

/// The page walked off the bottom: some returned row is at or below the
/// lower bound.
pub open spec fn spec_reached_min(batch: Seq<MessageView>, min_id: int) -> bool {
    exists|i: int| 0 <= i < batch.len() && (#[trigger] batch[i]).id <= min_id
}

proof fn lemma_filter_range_take_extend(batch: Seq<MessageView>, min_id: int, max_id: int, i: int)
    requires
        0 <= i < batch.len(),
    ensures
        spec_filter_range(batch.take(i + 1), min_id, max_id) == if spec_in_range(
            batch[i],
            min_id,
            max_id,
        ) {
            spec_filter_range(batch.take(i), min_id, max_id).push(batch[i])
        } else {
            spec_filter_range(batch.take(i), min_id, max_id)
        },
{
    reveal(Seq::filter);
    assert(batch.take(i + 1).drop_last() =~= batch.take(i));
    assert(batch.take(i + 1).last() == batch[i]);
}

/// Every row of the filtered page is in range.
proof fn lemma_filter_range_in_range(batch: Seq<MessageView>, min_id: int, max_id: int)
    ensures
        forall|k: int|
            0 <= k < spec_filter_range(batch, min_id, max_id).len() ==> spec_in_range(
                #[trigger] spec_filter_range(batch, min_id, max_id)[k],
                min_id,
                max_id,
            ),
    decreases batch.len(),
{
    reveal(Seq::filter);
    if batch.len() > 0 {
        lemma_filter_range_in_range(batch.drop_last(), min_id, max_id);
        let sub = spec_filter_range(batch.drop_last(), min_id, max_id);
        assert(batch.drop_last() =~= batch.drop_last());
        assert forall|k: int|
            0 <= k < spec_filter_range(batch, min_id, max_id).len() implies spec_in_range(
            #[trigger] spec_filter_range(batch, min_id, max_id)[k],
            min_id,
            max_id,
        ) by {
            if k < sub.len() {
            }
        };
    }
}

/// A permutation of in-range rows is in range.
proof fn lemma_perm_in_range(a: Seq<MessageView>, b: Seq<MessageView>, min_id: int, max_id: int)
    requires
        a.to_multiset() == b.to_multiset(),
        forall|k: int| 0 <= k < a.len() ==> spec_in_range(#[trigger] a[k], min_id, max_id),
    ensures
        forall|k: int| 0 <= k < b.len() ==> spec_in_range(#[trigger] b[k], min_id, max_id),
{
    broadcast use vstd::seq_lib::group_to_multiset_ensures;

    assert forall|k: int| 0 <= k < b.len() implies spec_in_range(
        #[trigger] b[k],
        min_id,
        max_id,
    ) by {
        assert(b.contains(b[k]));
        assert(b.to_multiset().count(b[k]) > 0);
        assert(a.contains(b[k]));
        let i = a.index_of(b[k]);
        assert(a[i] == b[k]);
    };
}

/// Drops every row outside the open interval `(min_id, max_id)`.
fn filter_batch(raw: &Vec<Message>, min_id: i32, max_id: i32) -> (r: Vec<Message>)
    ensures
        r@.map_values(|m: Message| m@) == spec_filter_range(
            raw@.map_values(|m: Message| m@),
            min_id as int,
            max_id as int,
        ),
{
    let ghost f = |m: Message| m@;
    let ghost rawv = raw@.map_values(f);
    let mut out: Vec<Message> = Vec::new();
    let n = raw.len();
    let mut i: usize = 0;
    proof {
        reveal(Seq::filter);
        assert(rawv.take(0) =~= Seq::<MessageView>::empty());
        assert(out@.map_values(f) =~= spec_filter_range(rawv.take(0), min_id as int, max_id as int));
    }
    while i < n
        invariant
            i <= n,
            n == raw@.len(),
            f == (|m: Message| m@),
            rawv == raw@.map_values(f),
            out@.map_values(f) == spec_filter_range(rawv.take(i as int), min_id as int, max_id as int),
        decreases n - i,
    {
        proof {
            lemma_filter_range_take_extend(rawv, min_id as int, max_id as int, i as int);
        }
        let m = &raw[i];
        proof {
            assert(rawv[i as int] == m@);
        }
        if m.id > min_id && (max_id == 0 || m.id < max_id) {
            out.push(m.duplicate());
            proof {
                assert(out@.map_values(f) =~= spec_filter_range(
                    rawv.take(i + 1),
                    min_id as int,
                    max_id as int,
                ));
            }
        }
        i = i + 1;
    }
    proof {
        assert(rawv.take(n as int) =~= rawv);
    }
    out
}

/// Whether the page holds a row at or below the lower bound.
fn reached_min_exec(raw: &Vec<Message>, min_id: i32) -> (r: bool)
    ensures
        r == spec_reached_min(raw@.map_values(|m: Message| m@), min_id as int),
{
    let ghost rawv = raw@.map_values(|m: Message| m@);
    let n = raw.len();
    let mut i: usize = 0;
    while i < n
        invariant
            i <= n,
            n == raw@.len(),
            rawv == raw@.map_values(|m: Message| m@),
            forall|k: int| 0 <= k < i ==> (#[trigger] rawv[k]).id > min_id,
        decreases n - i,
    {
        if raw[i].id <= min_id {
            proof {
                assert(rawv[i as int].id <= min_id);
            }
            return true;
        }
        i = i + 1;
    }
    proof {
        if spec_reached_min(rawv, min_id as int) {
            let k = choose|k: int| 0 <= k < rawv.len() && (#[trigger] rawv[k]).id <= min_id;
            assert(false);
        }
    }
    false
}

/// The least message id of the page, `None` for an empty page.
fn raw_min_id(raw: &Vec<Message>) -> (r: Option<i32>)
    ensures
        (r is None) == (raw@.len() == 0),
        r matches Some(v) ==> forall|k: int|
            0 <= k < raw@.len() ==> v as int <= (#[trigger] raw@[k])@.id,
{
    let n = raw.len();
    if n == 0 {
        return None;
    }
    let mut best: i32 = raw[0].id;
    let mut i: usize = 1;
    while i < n
        invariant
            1 <= i <= n,
            n == raw@.len(),
            forall|k: int|
                0 <= k < i ==> best as int <= (#[trigger] raw@[k])@.id,
        decreases n - i,
    {
        if raw[i].id < best {
            best = raw[i].id;
        }
        i = i + 1;
    }
    Some(best)
}

/// Selection sort of messages by id, ascending. The result is a permutation
/// of the input.
fn sort_messages_by_id_asc(input: Vec<Message>) -> (r: Vec<Message>)
    ensures
        r@.map_values(|m: Message| m@).to_multiset() == input@.map_values(|m: Message| m@)
            .to_multiset(),
        crate::ports::sorted_by_id_asc(r@.map_values(|m: Message| m@)),
{
    broadcast use vstd::seq_lib::group_to_multiset_ensures;

    let ghost f = |m: Message| m@;
    let ghost goal = input@.map_values(f).to_multiset();
    let mut src = input;
    let mut out: Vec<Message> = Vec::new();
    while src.len() > 0
        invariant
            goal == input@.map_values(f).to_multiset(),
            f == (|m: Message| m@),
            out@.map_values(f).to_multiset().add(src@.map_values(f).to_multiset()) == goal,
            crate::ports::sorted_by_id_asc(out@.map_values(f)),
            forall|i: int, j: int|
                0 <= i < out@.len() && 0 <= j < src@.len() ==> (#[trigger] out@.map_values(f)[
                    i
                ]).id <= (#[trigger] src@.map_values(f)[j]).id,
        decreases src@.len(),
    {
        let n = src.len();
        let mut mi: usize = 0;
        let mut k: usize = 1;
        while k < n
            invariant
                n == src@.len(),
                0 < n,
                mi < k,
                k <= n,
                forall|t: int| 0 <= t < k ==> src@[mi as int]@.id <= (#[trigger] src@[t]@).id,
            decreases n - k,
        {
            if src[k].id < src[mi].id {
                mi = k;
            }
            k = k + 1;
        }
        let ghost pre_src = src@;
        let ghost pre_out = out@;
        let picked = src.remove(mi);
        out.push(picked);
        proof {
            broadcast use vstd::seq_lib::group_to_multiset_ensures;

            let pv = picked@;
            assert(src@ =~= pre_src.remove(mi as int));
            assert(src@.map_values(f) =~= pre_src.map_values(f).remove(mi as int));
            assert(out@.map_values(f) =~= pre_out.map_values(f).push(pv));
            assert(pre_src.map_values(f)[mi as int] == pv);
            assert(pre_src.map_values(f).remove(mi as int).to_multiset() =~= pre_src.map_values(
                f,
            ).to_multiset().remove(pv));
            assert(pre_out.map_values(f).push(pv).to_multiset() =~= pre_out.map_values(
                f,
            ).to_multiset().insert(pv));
            assert(pre_src.map_values(f).to_multiset().contains(pv));
            assert(out@.map_values(f).to_multiset().add(src@.map_values(f).to_multiset()) =~= goal);
            assert forall|i: int, j: int| 0 <= i < j < out@.len() implies (
            #[trigger] out@.map_values(f)[i]).id <= (#[trigger] out@.map_values(f)[j]).id by {
                if j == pre_out.len() {
                    assert(out@.map_values(f)[i] == pre_out.map_values(f)[i]);
                    assert(pre_out.map_values(f)[i].id <= pre_src.map_values(f)[mi as int].id);
                }
            };
            assert forall|i: int, j: int|
                0 <= i < out@.len() && 0 <= j < src@.len() implies (#[trigger] out@.map_values(f)[
                i
            ]).id <= (#[trigger] src@.map_values(f)[j]).id by {
                if i < pre_out.len() {
                } else {
                    if j < mi {
                        assert(src@.map_values(f)[j] == pre_src.map_values(f)[j]);
                    } else {
                        assert(src@.map_values(f)[j] == pre_src.map_values(f)[j + 1]);
                    }
                }
            };
        }
    }
    out
}

/// Addition on counters that never wraps.
fn sat_add_usize(a: usize, b: usize) -> (r: usize)
    ensures
        r as int == vstd::math::min(a as int + b as int, usize::MAX as int),
        r as int >= a as int,
        b > 0 ==> r as int > 0,
{
    if a <= usize::MAX - b {
        a + b
    } else {
        usize::MAX
    }
}


/// The greatest message id of a non-empty batch.
fn max_id_of(batch: &Vec<Message>) -> (r: i32)
    requires
        batch@.len() > 0,
    ensures
        exists|k: int| 0 <= k < batch@.len() && (#[trigger] batch@[k])@.id == r as int,
        forall|k: int| 0 <= k < batch@.len() ==> (#[trigger] batch@[k])@.id <= r as int,
{
    let n = batch.len();
    let mut best: i32 = batch[0].id;
    let mut i: usize = 1;
    proof {
        assert(batch@[0]@.id == best as int);
    }
    while i < n
        invariant
            1 <= i <= n,
            n == batch@.len(),
            exists|k: int| 0 <= k < batch@.len() && (#[trigger] batch@[k])@.id == best as int,
            forall|k: int| 0 <= k < i ==> (#[trigger] batch@[k])@.id <= best as int,
        decreases n - i,
    {
        if batch[i].id > best {
            best = batch[i].id;
            proof {
                assert(batch@[i as int]@.id == best as int);
            }
        }
        i = i + 1;
    }
    best
}

/// Persists one in-range batch, then advances the checkpoint to the batch
/// maximum when that is ahead of the current checkpoint. Data is saved
/// first; the checkpoint moves only onto a saved row and never regresses.
fn commit_batch<R: RepoPort, S: StatePort>(
    repo: &mut R,
    state: &mut S,
    chat_id: i64,
    min_id: i32,
    max_id: i32,
    cp_now: i32,
    batch: &Vec<Message>,
) -> (r: Result<i32, DomainError>)
    requires
        old(repo).repo_inv(),
        old(state).state_inv(),
        batch@.len() > 0,
        forall|k: int|
            0 <= k < batch@.len() ==> spec_in_range(
                (#[trigger] batch@[k])@,
                min_id as int,
                max_id as int,
            ),
        cp_now as int == old(state).spec_checkpoint(chat_id as int),
        min_id <= cp_now,
    ensures
        final(repo).repo_inv(),
        final(state).state_inv(),
        final(repo).blacklist_view() == old(repo).blacklist_view(),
        final(repo).targets_view() == old(repo).targets_view(),
        forall|c: int, id: int|
            spec_has_row(old(repo).rows(), c, id) ==> spec_has_row(final(repo).rows(), c, id)
                && #[trigger] spec_row(final(repo).rows(), c, id) == spec_row(
                old(repo).rows(),
                c,
                id,
            ),
        forall|c: int, id: int|
            #[trigger] spec_has_row(final(repo).rows(), c, id) && !spec_has_row(
                old(repo).rows(),
                c,
                id,
            ) ==> c == chat_id as int && id > min_id as int && (max_id > 0 ==> id < max_id as int),
        old(state).spec_checkpoint(chat_id as int) <= final(state).spec_checkpoint(chat_id as int),
        forall|c: int|
            c != chat_id as int ==> final(state).spec_checkpoint(c) == old(state).spec_checkpoint(
                c,
            ),
        final(state).spec_checkpoint(chat_id as int) != old(state).spec_checkpoint(chat_id as int)
            ==> spec_has_row(
            final(repo).rows(),
            chat_id as int,
            final(state).spec_checkpoint(chat_id as int),
        ),
        r matches Ok(ncp) ==> ncp as int == final(state).spec_checkpoint(chat_id as int) && cp_now
            <= ncp && min_id <= ncp && (forall|c: int, id: int|
            #[trigger] spec_has_row(final(repo).rows(), c, id) && !spec_has_row(
                old(repo).rows(),
                c,
                id,
            ) ==> id <= ncp as int),
{
    let ghost cint = chat_id as int;
    let batch_max: i32 = max_id_of(batch);
    let ghost pre_rows = repo.rows();
    match repo.save_messages(chat_id, batch) {
        Ok(()) => {},
        Err(e) => {
            return Err(e);
        },
    }
    let ghost batchv = batch@.map_values(|m: Message| m@);
    proof {
        assert forall|c: int, id: int|
            #[trigger] spec_has_row(repo.rows(), c, id) && !spec_has_row(
                pre_rows,
                c,
                id,
            ) implies c == cint && id > min_id as int && id <= batch_max as int by {
            assert(crate::ports::batch_has_id(batchv, id));
            let k = choose|k: int| 0 <= k < batchv.len() && (#[trigger] batchv[k]).id == id;
            assert(batchv[k] == batch@[k]@);
            assert(spec_in_range(batch@[k]@, min_id as int, max_id as int));
            assert(batch@[k]@.id <= batch_max as int);
        };
        let ghost w = choose|k: int|
            0 <= k < batch@.len() && (#[trigger] batch@[k])@.id == batch_max as int;
        assert(batchv[w].id == batch_max as int);
        assert(crate::ports::batch_has_id(batchv, batch_max as int));
        assert(spec_has_row(repo.rows(), cint, batch_max as int));
    }
    if batch_max > cp_now {
        match state.set_last_message_id(chat_id, batch_max) {
            Ok(()) => {},
            Err(e) => {
                return Err(e);
            },
        }
        Ok(batch_max)
    } else {
        Ok(cp_now)
    }
}

/// The sync engine: pure coordination, configured with the inter-batch
/// pacing delay.
pub struct SyncService {
    /// Milliseconds to sleep between successive history pages.
    pub delay_ms: u64,
}

impl SyncService {
    /// A sync engine with the given inter-batch delay.
    pub fn new(delay_ms: u64) -> (r: SyncService)
        ensures
            r.delay_ms == delay_ms,
    {
        SyncService { delay_ms }
    }

    /// Syncs one chat: fetches history pages from the checkpoint toward the
    /// head, drops every row outside the requested range, persists data
    /// first and the checkpoint second.
    ///
    /// Whatever the gateway returns: existing rows are never changed, every
    /// newly persisted row belongs to this chat and lies above the entry
    /// checkpoint, the checkpoint never regresses and moves only onto a row
    /// that was saved first. A gateway failure (FloodWait included) is
    /// surfaced verbatim. When the media channel closes, media queuing stops
    /// but text persistence continues.
    #[verifier::rlimit(100)]
    pub fn sync_chat<G: TgGateway, R: RepoPort, S: StatePort, M: MediaSink, P: Pacer>(
        &self,
        tg: &G,
        repo: &mut R,
        state: &mut S,
        media: &mut M,
        pacer: &P,
        chat_id: i64,
        limit: i32,
        include_media: bool,
    ) -> (r: Result<SyncStats, DomainError>)
        requires
            old(repo).repo_inv(),
            old(state).state_inv(),
        ensures
            final(repo).repo_inv(),
            final(state).state_inv(),
            old(state).spec_checkpoint(chat_id as int) <= final(state).spec_checkpoint(
                chat_id as int,
            ),
            forall|c: int|
                c != chat_id as int ==> final(state).spec_checkpoint(c) == old(
                    state,
                ).spec_checkpoint(c),
            forall|c: int, id: int|
                spec_has_row(old(repo).rows(), c, id) ==> spec_has_row(final(repo).rows(), c, id)
                    && #[trigger] spec_row(final(repo).rows(), c, id) == spec_row(
                    old(repo).rows(),
                    c,
                    id,
                ),
            forall|c: int, id: int|
                #[trigger] spec_has_row(final(repo).rows(), c, id) && !spec_has_row(
                    old(repo).rows(),
                    c,
                    id,
                ) ==> c == chat_id as int && id > old(state).spec_checkpoint(chat_id as int),
            final(state).spec_checkpoint(chat_id as int) != old(state).spec_checkpoint(
                chat_id as int,
            ) ==> spec_has_row(
                final(repo).rows(),
                chat_id as int,
                final(state).spec_checkpoint(chat_id as int),
            ),
            (r is Ok && (forall|id: int|
                spec_has_row(old(repo).rows(), chat_id as int, id) ==> id <= old(state).spec_checkpoint(chat_id as int))) ==> (forall|id: int|
                spec_has_row(final(repo).rows(), chat_id as int, id) ==> id <= final(state).spec_checkpoint(chat_id as int)),
            final(repo).blacklist_view() == old(repo).blacklist_view(),
            final(repo).targets_view() == old(repo).targets_view(),
            !include_media ==> (r matches Ok(st) ==> st.media_queued == 0),
            r matches Ok(st) && st.messages_synced == 0 ==> final(state).spec_checkpoint(
                chat_id as int,
            ) == old(state).spec_checkpoint(chat_id as int) && (forall|c: int, id: int|
                #[trigger] spec_has_row(final(repo).rows(), c, id) == spec_has_row(
                    old(repo).rows(),
                    c,
                    id,
                )),
    {
        let ghost cint = chat_id as int;
        let last_known_id: i32 = match state.get_last_message_id(chat_id) {
            Ok(v) => v,
            Err(e) => {
                return Err(e);
            },
        };
        let min_id: i32 = last_known_id;
        let mut max_id: i32 = 0;
        let mut total_synced: usize = 0;
        let mut total_media_queued: usize = 0;
        let mut cp_now: i32 = last_known_id;
        let mut channel_closed = false;
        // Termination measure for the page loop: the platform gives no bound
        // on pages, so this countdown both guards against a server that
        // never lets the cursor advance and gives the loop its `decreases`.
        // At one page per call it is unreachable in any real run.
        let mut pages_left: u64 = 18446744073709551615u64;
        loop
            invariant
                repo.repo_inv(),
                state.state_inv(),
                cint == chat_id as int,
                min_id as int == old(state).spec_checkpoint(cint),
                cp_now as int == state.spec_checkpoint(cint),
                min_id <= cp_now,
                forall|c: int|
                    c != cint ==> state.spec_checkpoint(c) == old(state).spec_checkpoint(c),
                forall|c: int, id: int|
                    spec_has_row(old(repo).rows(), c, id) ==> spec_has_row(repo.rows(), c, id)
                        && #[trigger] spec_row(repo.rows(), c, id) == spec_row(
                        old(repo).rows(),
                        c,
                        id,
                    ),
                forall|c: int, id: int|
                    #[trigger] spec_has_row(repo.rows(), c, id) && !spec_has_row(
                        old(repo).rows(),
                        c,
                        id,
                    ) ==> c == cint && id > min_id as int,
                cp_now != min_id ==> spec_has_row(repo.rows(), cint, cp_now as int),
                forall|c: int, id: int|
                    #[trigger] spec_has_row(repo.rows(), c, id) && !spec_has_row(
                        old(repo).rows(),
                        c,
                        id,
                    ) ==> id <= cp_now as int,
                repo.blacklist_view() == old(repo).blacklist_view(),
                repo.targets_view() == old(repo).targets_view(),
                !include_media ==> total_media_queued == 0,
                total_synced == 0 ==> cp_now == min_id && (forall|c: int, id: int|
                    #[trigger] spec_has_row(repo.rows(), c, id) == spec_has_row(
                        old(repo).rows(),
                        c,
                        id,
                    )),
            decreases pages_left,
        {
            if pages_left == 0 {
                break;
            }
            pages_left = pages_left - 1;
            let raw = match tg.get_messages(chat_id, min_id, max_id, limit) {
                Ok(v) => v,
                Err(e) => {
                    return Err(e);
                },
            };
            if raw.is_empty() {
                break;
            }
            let reached_min = reached_min_exec(&raw, min_id);
            let page_min = raw_min_id(&raw);
            let messages = filter_batch(&raw, min_id, max_id);
            if messages.len() > 0 {
                let ghost filteredv = messages@.map_values(|m: Message| m@);
                proof {
                    lemma_filter_range_in_range(
                        raw@.map_values(|m: Message| m@),
                        min_id as int,
                        max_id as int,
                    );
                }
                let sorted = sort_messages_by_id_asc(messages);
                let ghost sortedv = sorted@.map_values(|m: Message| m@);
                proof {
                    lemma_perm_in_range(filteredv, sortedv, min_id as int, max_id as int);
                    broadcast use vstd::seq_lib::group_to_multiset_ensures;

                    assert(sortedv.len() == sortedv.to_multiset().len());
                    assert(filteredv.len() == filteredv.to_multiset().len());
                }
                let batch_min: i32 = sorted[0].id;
                proof {
                    assert forall|k: int| 0 <= k < sorted@.len() implies spec_in_range(
                        (#[trigger] sorted@[k])@,
                        min_id as int,
                        max_id as int,
                    ) by {
                        assert(sortedv[k] == sorted@[k]@);
                    };
                }
                if include_media && !channel_closed {
                    let mut mi: usize = 0;
                    while mi < sorted.len()
                        invariant
                            mi <= sorted@.len(),
                            include_media,
                        decreases sorted@.len() - mi,
                    {
                        let mut closed_here = false;
                        match &sorted[mi].media {
                            Option::Some(m) => {
                                let mref = m.duplicate();
                                match media.send(mref) {
                                    SendOutcome::Accepted => {
                                        total_media_queued = sat_add_usize(total_media_queued, 1);
                                    },
                                    SendOutcome::Closed => {
                                        closed_here = true;
                                    },
                                }
                            },
                            Option::None => {},
                        }
                        if closed_here {
                            channel_closed = true;
                            break;
                        }
                        mi = mi + 1;
                    }
                }
                let ghost prev_rows = repo.rows();
                let ghost prev_cp = cp_now;
                let commit_res = commit_batch(repo, state, chat_id, min_id, max_id, cp_now, &sorted);
                proof {
                    if state.spec_checkpoint(cint) == prev_cp as int && prev_cp != min_id {
                        assert(spec_has_row(prev_rows, cint, prev_cp as int));
                        assert(spec_row(repo.rows(), cint, prev_cp as int) == spec_row(
                            prev_rows,
                            cint,
                            prev_cp as int,
                        ));
                        assert(spec_has_row(repo.rows(), cint, prev_cp as int));
                    }
                }
                match commit_res {
                    Ok(ncp) => {
                        cp_now = ncp;
                    },
                    Err(e) => {
                        return Err(e);
                    },
                }
                total_synced = sat_add_usize(total_synced, sorted.len());
                proof {
                    assert(sorted@.len() > 0);
                    assert(total_synced > 0);
                }
                if reached_min {
                    break;
                }
                max_id = batch_min;
            } else {
                if reached_min {
                    break;
                }
                max_id = match page_min {
                    Some(v) => v,
                    None => max_id,
                };
            }
            pacer.sleep_ms(self.delay_ms);
        }
        Ok(SyncStats { messages_synced: total_synced, media_queued: total_media_queued })
    }

    /// Syncs several chats sequentially, sharing one pacing budget. The
    /// first failure aborts the remainder and is surfaced verbatim.
    pub fn sync_chats<G: TgGateway, R: RepoPort, S: StatePort, M: MediaSink, P: Pacer>(
        &self,
        tg: &G,
        repo: &mut R,
        state: &mut S,
        media: &mut M,
        pacer: &P,
        chat_ids: &Vec<i64>,
        limit_per_chat: i32,
        include_media: bool,
    ) -> (r: Result<(), DomainError>)
        requires
            old(repo).repo_inv(),
            old(state).state_inv(),
        ensures
            final(repo).repo_inv(),
            final(state).state_inv(),
            forall|c: int|
                old(state).spec_checkpoint(c) <= #[trigger] final(state).spec_checkpoint(c),
            forall|c: int, id: int|
                spec_has_row(old(repo).rows(), c, id) ==> spec_has_row(final(repo).rows(), c, id)
                    && #[trigger] spec_row(final(repo).rows(), c, id) == spec_row(
                    old(repo).rows(),
                    c,
                    id,
                ),
            final(repo).blacklist_view() == old(repo).blacklist_view(),
            final(repo).targets_view() == old(repo).targets_view(),
    {
        let n = chat_ids.len();
        let mut i: usize = 0;
        while i < n
            invariant
                i <= n,
                n == chat_ids@.len(),
                repo.repo_inv(),
                state.state_inv(),
                forall|c: int|
                    old(state).spec_checkpoint(c) <= #[trigger] state.spec_checkpoint(c),
                forall|c: int, id: int|
                    spec_has_row(old(repo).rows(), c, id) ==> spec_has_row(repo.rows(), c, id)
                        && #[trigger] spec_row(repo.rows(), c, id) == spec_row(
                        old(repo).rows(),
                        c,
                        id,
                    ),
                repo.blacklist_view() == old(repo).blacklist_view(),
                repo.targets_view() == old(repo).targets_view(),
            decreases n - i,
        {
            let chat_id = chat_ids[i];
            match self.sync_chat(
                tg,
                repo,
                state,
                media,
                pacer,
                chat_id,
                limit_per_chat,
                include_media,
            ) {
                Ok(_) => {},
                Err(e) => {
                    return Err(e);
                },
            }
            i = i + 1;
        }
        Ok(())
    }
}

} // verus!
