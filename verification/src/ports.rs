//! Port traits: the capability surface between the engines and the outside
//! world, together with the shared spec predicates their contracts are
//! stated over.
//!
//! The storage-side ports ([`RepoPort`], [`StatePort`], [`EntityRegistry`],
//! [`AnalysisLogPort`]) carry exact contracts over mathematical views; the
//! in-crate store implements and proves them. The outward ports
//! ([`TgGateway`], [`AiPort`], [`TaskTrackerPort`], [`AuthPort`],
//! [`ProcessorPort`], [`MediaSink`], [`Pacer`], [`InputPort`]) describe
//! collaborators whose behaviour the engines cannot assume: their methods
//! promise nothing (or, for [`AiPort`], only that the result echoes its
//! key), and the engines are verified for every outcome of such a call.

use vstd::prelude::*;
use crate::domain::{
    AnalysisResult, AnalysisResultView, Chat, DomainError, MediaReference, Message, MessageView,
    SignInResult, WeekGroup,
};
use crate::textutil::{lex_le, spec_contains};
use crate::timefmt::spec_week_of;

verus! {

// ─── shared spec predicates over stored rows ─────────────────────────────────

/// Some stored row has the key `(chat, id)`.
pub open spec fn spec_has_row(rows: Seq<MessageView>, chat: int, id: int) -> bool {
    exists|i: int| 0 <= i < rows.len() && rows[i].chat_id == chat && rows[i].id == id
}

/// No two stored rows share a `(chat_id, id)` key.
pub open spec fn rows_unique(rows: Seq<MessageView>) -> bool {
    forall|i: int, j: int|
        0 <= i < j < rows.len() ==> !(rows[i].chat_id == rows[j].chat_id && rows[i].id
            == rows[j].id)
}

/// Index of the row with key `(chat, id)`.
pub open spec fn row_index(rows: Seq<MessageView>, chat: int, id: int) -> int {
    choose|i: int| 0 <= i < rows.len() && rows[i].chat_id == chat && rows[i].id == id
}

/// The stored row with key `(chat, id)`; meaningful when `spec_has_row` holds.
pub open spec fn spec_row(rows: Seq<MessageView>, chat: int, id: int) -> MessageView {
    rows[row_index(rows, chat, id)]
}

/// Some batch element carries the message id `id`.
pub open spec fn batch_has_id(batch: Seq<MessageView>, id: int) -> bool {
    exists|i: int| 0 <= i < batch.len() && batch[i].id == id
}

/// The same row with its chat column replaced: saving keys every row under
/// the chat it was saved for.
pub open spec fn with_chat(m: MessageView, chat: int) -> MessageView {
    MessageView { chat_id: chat, ..m }
}

/// What a successful `save_messages(chat, batch)` does to the stored rows:
/// exactly the new keys from the batch appear, existing rows are untouched
/// (re-observations are ignored), and each new key holds the first batch
/// occurrence, keyed under `chat`.
pub open spec fn save_messages_post(
    pre: Seq<MessageView>,
    post: Seq<MessageView>,
    chat: int,
    batch: Seq<MessageView>,
) -> bool {
    &&& forall|c: int, id: int|
        #[trigger] spec_has_row(post, c, id) <==> spec_has_row(pre, c, id) || (c == chat
            && batch_has_id(batch, id))
    &&& forall|c: int, id: int|
        spec_has_row(pre, c, id) ==> #[trigger] spec_row(post, c, id) == spec_row(pre, c, id)
    &&& forall|i: int|
        0 <= i < batch.len() && !spec_has_row(pre, chat, (#[trigger] batch[i]).id) && (forall|
            j: int,
        |
            0 <= j < i ==> batch[j].id != batch[i].id) ==> spec_row(post, chat, batch[i].id)
            == with_chat(batch[i], chat)
}

pub open spec fn sorted_by_date_desc(s: Seq<MessageView>) -> bool {
    forall|i: int, j: int| 0 <= i < j < s.len() ==> s[i].date >= s[j].date
}

pub open spec fn sorted_by_date_asc(s: Seq<MessageView>) -> bool {
    forall|i: int, j: int| 0 <= i < j < s.len() ==> s[i].date <= s[j].date
}

pub open spec fn sorted_by_id_asc(s: Seq<MessageView>) -> bool {
    forall|i: int, j: int| 0 <= i < j < s.len() ==> s[i].id <= s[j].id
}

/// What a successful `get_messages(chat, limit, offset)` returns: a window of
/// some date-descending arrangement of the chat's rows.
pub open spec fn get_messages_post(
    rows: Seq<MessageView>,
    out: Seq<MessageView>,
    chat: int,
    limit: int,
    offset: int,
) -> bool {
    exists|all: Seq<MessageView>|
        {
            &&& all.to_multiset() == rows.filter(|m: MessageView| m.chat_id == chat).to_multiset()
            &&& sorted_by_date_desc(all)
            &&& out == all.subrange(
                vstd::math::min(offset, all.len() as int),
                vstd::math::min(offset + limit, all.len() as int),
            )
        }
}

/// The service-message mask: a stored row takes part in analysis only when
/// its text is non-empty and is no join/leave service message. The match is
/// case-sensitive, on the exact phrases given here.
pub open spec fn spec_eligible(m: MessageView, chat: int) -> bool {
    &&& m.chat_id == chat
    &&& m.text.len() > 0
    &&& !spec_contains(m.text, "joined the group"@)
    &&& !spec_contains(m.text, "left the group"@)
}

/// The analyzable rows of a chat, in storage order.
pub open spec fn spec_eligible_rows(rows: Seq<MessageView>, chat: int) -> Seq<MessageView> {
    rows.filter(|m: MessageView| spec_eligible(m, chat))
}

/// The rows of an analyzable-row sequence that fall in week `w`.
pub open spec fn spec_week_rows(eligible: Seq<MessageView>, w: Seq<char>) -> Seq<MessageView> {
    eligible.filter(|m: MessageView| spec_week_of(m.date) == w)
}

/// The analyzable rows of a chat that fall in week `w`, in storage order.
pub open spec fn spec_chat_week_rows(rows: Seq<MessageView>, chat: int, w: Seq<char>) -> Seq<
    MessageView,
> {
    rows.filter(|m: MessageView| spec_eligible(m, chat) && spec_week_of(m.date) == w)
}

/// The week keys that have at least one analyzable row.
pub open spec fn spec_message_weeks(rows: Seq<MessageView>, chat: int) -> Set<Seq<char>> {
    Set::new(
        |w: Seq<char>|
            exists|i: int|
                0 <= i < spec_eligible_rows(rows, chat).len() && #[trigger] spec_week_of(
                    spec_eligible_rows(rows, chat)[i].date,
                ) == w,
    )
}

/// What a successful `get_messages_by_week(chat)` returns: groups keyed by
/// strictly ascending week strings; each group holds exactly the analyzable
/// rows of its week, date-ascending; every populated week appears.
pub open spec fn by_week_post(
    eligible: Seq<MessageView>,
    out: Seq<(Seq<char>, Seq<MessageView>)>,
) -> bool {
    &&& forall|i: int, j: int|
        0 <= i < j < out.len() ==> lex_le(out[i].0, out[j].0) && out[i].0 != out[j].0
    &&& forall|i: int| 0 <= i < out.len() ==> (#[trigger] out[i].1).len() > 0
    &&& forall|i: int|
        0 <= i < out.len() ==> sorted_by_date_asc(#[trigger] out[i].1)
    &&& forall|i: int|
        0 <= i < out.len() ==> (#[trigger] out[i].1).to_multiset() == spec_week_rows(
            eligible,
            out[i].0,
        ).to_multiset()
    &&& weeks_covered(eligible, out)
}

/// The set of week keys the groups are keyed by.
pub open spec fn group_keys(out: Seq<(Seq<char>, Seq<MessageView>)>) -> Set<Seq<char>> {
    Set::new(|w: Seq<char>| exists|i: int| 0 <= i < out.len() && (#[trigger] out[i].0) == w)
}

/// Every analyzable row's week appears among the group keys.
pub open spec fn weeks_covered(
    eligible: Seq<MessageView>,
    out: Seq<(Seq<char>, Seq<MessageView>)>,
) -> bool {
    forall|k: int|
        0 <= k < eligible.len() ==> group_keys(out).contains(
            spec_week_of(#[trigger] eligible[k].date),
        )
}

proof fn lemma_filter_elem_in(s: Seq<MessageView>, pred: spec_fn(MessageView) -> bool, i: int)
    requires
        0 <= i < s.filter(pred).len(),
    ensures
        s.contains(s.filter(pred)[i]),
    decreases s.len(),
{
    reveal(Seq::filter);
    let x = s.filter(pred)[i];
    if s.len() > 0 {
        let rest = s.drop_last();
        if pred(s.last()) && i == s.filter(pred).len() - 1 {
            assert(s[s.len() - 1] == x);
        } else {
            assert(rest.filter(pred)[i] == x);
            lemma_filter_elem_in(rest, pred, i);
            let j = choose|j: int| 0 <= j < rest.len() && rest[j] == x;
            assert(s[j] == x);
        }
    }
}

/// A week whose analyzable row group is non-empty is a populated week of the
/// chat.
pub proof fn lemma_week_rows_populated(rows: Seq<MessageView>, chat: int, w: Seq<char>)
    requires
        spec_week_rows(spec_eligible_rows(rows, chat), w).len() > 0,
    ensures
        spec_message_weeks(rows, chat).contains(w),
{
    let eligible = spec_eligible_rows(rows, chat);
    let pred = |m: MessageView| spec_week_of(m.date) == w;
    eligible.filter_lemma(pred);
    let x = eligible.filter(pred)[0];
    assert(pred(x));
    lemma_filter_elem_in(eligible, pred, 0);
    let i = choose|i: int| 0 <= i < eligible.len() && eligible[i] == x;
    assert(spec_week_of(eligible[i].date) == w);
}

/// A view of an entity-registry row.
#[verifier::ext_equal]
pub struct EntityRecordView {
    pub access_hash: int,
    pub peer_kind: Seq<char>,
    pub username: Option<Seq<char>>,
    pub updated_at: int,
}

// ─── storage-side ports (exact contracts, implemented in this crate) ────────

/// Durable message repository: batch saves with insert-or-ignore semantics,
/// newest-first reads, and the blacklist / target sets.
pub trait RepoPort: Sized {
    /// Well-formedness of the repository state.
    spec fn repo_inv(&self) -> bool;

    /// All stored message rows, in storage order.
    spec fn rows(&self) -> Seq<MessageView>;

    /// Chats excluded from full backup.
    spec fn blacklist_view(&self) -> Set<int>;

    /// Chats watched by the watcher.
    spec fn targets_view(&self) -> Set<int>;

    /// Saves a batch inside one transaction. Re-observed `(chat_id, id)` keys
    /// are ignored; a failure leaves the prior state visible.
    fn save_messages(&mut self, chat_id: i64, messages: &Vec<Message>) -> (r: Result<
        (),
        DomainError,
    >)
        requires
            old(self).repo_inv(),
        ensures
            final(self).repo_inv(),
            final(self).blacklist_view() == old(self).blacklist_view(),
            final(self).targets_view() == old(self).targets_view(),
            match r {
                Ok(()) => save_messages_post(
                    old(self).rows(),
                    final(self).rows(),
                    chat_id as int,
                    messages@.map_values(|m: Message| m@),
                ),
                Err(e) => final(self).rows() == old(self).rows() && e matches DomainError::Repo(_),
            },
    ;

    /// Reads up to `limit` rows of the chat, newest first, skipping `offset`.
    fn get_messages(&self, chat_id: i64, limit: u32, offset: u32) -> (r: Result<
        Vec<Message>,
        DomainError,
    >)
        requires
            self.repo_inv(),
        ensures
            match r {
                Ok(v) => get_messages_post(
                    self.rows(),
                    v@.map_values(|m: Message| m@),
                    chat_id as int,
                    limit as int,
                    offset as int,
                ),
                Err(e) => e matches DomainError::Repo(_),
            },
    ;

    /// The set of blacklisted chat ids.
    fn get_blacklisted_ids(&self) -> (r: Result<Vec<i64>, DomainError>)
        requires
            self.repo_inv(),
        ensures
            match r {
                Ok(v) => v@.map_values(|x: i64| x as int).to_set() == self.blacklist_view()
                    && v@.no_duplicates(),
                Err(e) => e matches DomainError::Repo(_),
            },
    ;

    /// Replaces the blacklist with the given ids.
    fn update_blacklist(&mut self, ids: Vec<i64>) -> (r: Result<(), DomainError>)
        requires
            old(self).repo_inv(),
        ensures
            final(self).repo_inv(),
            final(self).rows() == old(self).rows(),
            final(self).targets_view() == old(self).targets_view(),
            match r {
                Ok(()) => final(self).blacklist_view() == ids@.map_values(|x: i64| x as int)
                    .to_set(),
                Err(e) => final(self).blacklist_view() == old(self).blacklist_view()
                    && e matches DomainError::Repo(_),
            },
    ;

    /// The set of watcher target chat ids.
    fn get_target_ids(&self) -> (r: Result<Vec<i64>, DomainError>)
        requires
            self.repo_inv(),
        ensures
            match r {
                Ok(v) => v@.map_values(|x: i64| x as int).to_set() == self.targets_view()
                    && v@.no_duplicates(),
                Err(e) => e matches DomainError::Repo(_),
            },
    ;

    /// Replaces the target set with the given ids.
    fn update_targets(&mut self, ids: Vec<i64>) -> (r: Result<(), DomainError>)
        requires
            old(self).repo_inv(),
        ensures
            final(self).repo_inv(),
            final(self).rows() == old(self).rows(),
            final(self).blacklist_view() == old(self).blacklist_view(),
            match r {
                Ok(()) => final(self).targets_view() == ids@.map_values(|x: i64| x as int).to_set(),
                Err(e) => final(self).targets_view() == old(self).targets_view()
                    && e matches DomainError::Repo(_),
            },
    ;
}

/// Per-chat checkpoint store: the last message id whose row is durably saved.
pub trait StatePort: Sized {
    /// Well-formedness of the checkpoint state.
    spec fn state_inv(&self) -> bool;

    /// The checkpoint of each chat; 0 where none was ever set.
    spec fn spec_checkpoint(&self, chat: int) -> int;

    /// The last known message id for a chat, 0 if none.
    fn get_last_message_id(&self, chat_id: i64) -> (r: Result<i32, DomainError>)
        requires
            self.state_inv(),
        ensures
            match r {
                Ok(id) => id as int == self.spec_checkpoint(chat_id as int),
                Err(e) => e matches DomainError::State(_),
            },
    ;

    /// Updates the checkpoint after a successful save. On failure the cached
    /// value may or may not have been replaced; other chats are untouched.
    fn set_last_message_id(&mut self, chat_id: i64, message_id: i32) -> (r: Result<
        (),
        DomainError,
    >)
        requires
            old(self).state_inv(),
        ensures
            final(self).state_inv(),
            forall|c: int|
                c != chat_id as int ==> final(self).spec_checkpoint(c) == old(self).spec_checkpoint(
                    c,
                ),
            match r {
                Ok(()) => final(self).spec_checkpoint(chat_id as int) == message_id as int,
                Err(e) => (final(self).spec_checkpoint(chat_id as int) == message_id as int
                    || final(self).spec_checkpoint(chat_id as int) == old(self).spec_checkpoint(
                    chat_id as int,
                )) && e matches DomainError::State(_),
            },
    ;
}

/// Durable registry of peer access hashes, upserted on every resolution.
pub trait EntityRegistry: Sized {
    /// Well-formedness of the registry state.
    spec fn registry_inv(&self) -> bool;

    /// The registry contents, keyed by peer id.
    spec fn registry(&self) -> Map<int, EntityRecordView>;

    /// The cached access hash of a peer, `None` when the peer is unknown.
    fn get_access_hash(&self, peer_id: i64) -> (r: Result<Option<i64>, DomainError>)
        requires
            self.registry_inv(),
        ensures
            match r {
                Ok(Some(h)) => self.registry().dom().contains(peer_id as int) && h as int
                    == self.registry()[peer_id as int].access_hash,
                Ok(None) => !self.registry().dom().contains(peer_id as int),
                Err(e) => e matches DomainError::Repo(_),
            },
    ;

    /// Inserts or replaces the registry row of a peer; the update stamp is
    /// whatever the clock reads.
    fn save_entity(
        &mut self,
        peer_id: i64,
        access_hash: i64,
        peer_type: &str,
        username: Option<&str>,
    ) -> (r: Result<(), DomainError>)
        requires
            old(self).registry_inv(),
        ensures
            final(self).registry_inv(),
            match r {
                Ok(()) => {
                    &&& final(self).registry().dom() == old(self).registry().dom().insert(
                        peer_id as int,
                    )
                    &&& final(self).registry()[peer_id as int].access_hash == access_hash as int
                    &&& final(self).registry()[peer_id as int].peer_kind == peer_type@
                    &&& final(self).registry()[peer_id as int].username == (match username {
                        Some(u) => Some(u@),
                        None => None,
                    })
                    &&& forall|p: int|
                        p != peer_id as int && old(self).registry().dom().contains(p)
                            ==> #[trigger] final(self).registry()[p] == old(self).registry()[p]
                },
                Err(e) => final(self).registry() == old(self).registry() && e
                    matches DomainError::Repo(_),
            },
    ;
}

/// Analysis log: which weeks of which chats were analyzed, with the stored
/// results, and the week-grouped view of the analyzable rows.
pub trait AnalysisLogPort: Sized {
    /// Well-formedness of the log state.
    spec fn log_inv(&self) -> bool;

    /// The stored message rows this log derives its weeks from.
    spec fn stored_rows(&self) -> Seq<MessageView>;

    /// The set of week keys already analyzed for a chat.
    spec fn analyzed_weeks(&self, chat: int) -> Set<Seq<char>>;

    /// The stored analysis of an analyzed week.
    spec fn analysis_entry(&self, chat: int, week: Seq<char>) -> AnalysisResultView;

    /// Weeks with analyzable rows that are not in the log yet, lexically
    /// ascending (that is chronological for `YYYY-WW` keys).
    fn get_unanalyzed_weeks(&self, chat_id: i64) -> (r: Result<Vec<WeekGroup>, DomainError>)
        requires
            self.log_inv(),
        ensures
            match r {
                Ok(v) => {
                    &&& v@.map_values(|w: WeekGroup| w@).to_set() == spec_message_weeks(
                        self.stored_rows(),
                        chat_id as int,
                    ).difference(self.analyzed_weeks(chat_id as int))
                    &&& forall|i: int, j: int|
                        0 <= i < j < v@.len() ==> lex_le(v@[i]@, v@[j]@) && v@[i]@ != v@[j]@
                },
                Err(e) => e matches DomainError::Repo(_),
            },
    ;

    /// The analyzable rows of the chat, grouped by week.
    fn get_messages_by_week(&self, chat_id: i64) -> (r: Result<
        Vec<(WeekGroup, Vec<Message>)>,
        DomainError,
    >)
        requires
            self.log_inv(),
        ensures
            match r {
                Ok(v) => by_week_post(
                    spec_eligible_rows(self.stored_rows(), chat_id as int),
                    v@.map_values(
                        |g: (WeekGroup, Vec<Message>)|
                            (g.0@, g.1@.map_values(|m: Message| m@)),
                    ),
                ),
                Err(e) => e matches DomainError::Repo(_),
            },
    ;

    /// Upserts the analysis of one week.
    fn save_analysis(&mut self, result: &AnalysisResult) -> (r: Result<(), DomainError>)
        requires
            old(self).log_inv(),
        ensures
            final(self).log_inv(),
            final(self).stored_rows() == old(self).stored_rows(),
            forall|c: int|
                c != result.chat_id as int ==> final(self).analyzed_weeks(c) == old(
                    self,
                ).analyzed_weeks(c),
            forall|c: int, w: Seq<char>|
                old(self).analyzed_weeks(c).contains(w) && !(c == result.chat_id as int && w
                    == result.week_group@) ==> #[trigger] final(self).analysis_entry(c, w) == old(
                    self,
                ).analysis_entry(c, w),
            match r {
                Ok(()) => final(self).analyzed_weeks(result.chat_id as int) == old(
                    self,
                ).analyzed_weeks(result.chat_id as int).insert(result.week_group@)
                    && final(self).analysis_entry(result.chat_id as int, result.week_group@)
                    == result@,
                Err(e) => final(self).analyzed_weeks(result.chat_id as int) == old(
                    self,
                ).analyzed_weeks(result.chat_id as int) && e matches DomainError::Repo(_),
            },
    ;

    /// Reads back the stored analysis of a week, `None` when unanalyzed.
    fn get_analysis(&self, chat_id: i64, week_group: &WeekGroup) -> (r: Result<
        Option<AnalysisResult>,
        DomainError,
    >)
        requires
            self.log_inv(),
        ensures
            match r {
                Ok(Some(a)) => self.analyzed_weeks(chat_id as int).contains(week_group@) && a@
                    == self.analysis_entry(chat_id as int, week_group@),
                Ok(None) => !self.analyzed_weeks(chat_id as int).contains(week_group@),
                Err(e) => e matches DomainError::Repo(_),
            },
    ;
}

// ─── outward ports (behaviour decided by the collaborator) ───────────────────

/// The chat platform. Implementations sit outside this crate; nothing is
/// assumed of what they return, and the engines filter client-side.
pub trait TgGateway: Sized {
    /// All dialogs of the signed-in user.
    fn get_dialogs(&self) -> Result<Vec<Chat>, DomainError>;

    /// A page of history around the paging cursor. `min_id = 0` means "from
    /// the beginning"; `max_id = 0` means "no upper bound". The result is
    /// untrusted: callers enforce the boundaries themselves.
    fn get_messages(&self, chat_id: i64, min_id: i32, max_id: i32, limit: i32) -> Result<
        Vec<Message>,
        DomainError,
    >;

    /// Downloads the referenced artifact to `dest_path`.
    fn download_media(&self, media_ref: &MediaReference, dest_path: &str) -> Result<
        (),
        DomainError,
    >;

    /// The signed-in user's own dialog id (the "Saved Messages" target).
    fn get_me_id(&self) -> Result<i64, DomainError>;

    /// Sends a text message to a chat.
    fn send_message(&self, chat_id: i64, text: &str) -> Result<(), DomainError>;
}

/// The LLM behind the analysis engine. The result echoes the chat and week
/// it was asked about; nothing else is assumed.
pub trait AiPort: Sized {
    /// Analyzes one week's CSV context into a structured result.
    fn analyze(&self, chat_id: i64, week_group: &WeekGroup, context_csv: &str) -> (r: Result<
        AnalysisResult,
        DomainError,
    >)
        ensures
            match r {
                Ok(a) => a.chat_id == chat_id && a.week_group@ == week_group@,
                Err(_) => true,
            },
    ;

    /// Condenses one chunk of context into an intermediate summary.
    fn summarize(&self, context: &str) -> Result<String, DomainError>;
}

/// An external task tracker fed with action items.
pub trait TaskTrackerPort: Sized {
    /// Creates one task.
    fn create_task(&self, title: &str, description: &str, due: Option<String>) -> Result<
        (),
        DomainError,
    >;
}

/// The authentication collaborator for the sign-in flow.
pub trait AuthPort: Sized {
    /// Whether the session is already authorized.
    fn is_authenticated(&self) -> Result<bool, DomainError>;

    /// Requests a login code for the phone number.
    fn request_login_code(&self, phone: &str, api_hash: &str) -> Result<(), DomainError>;

    /// Submits the received code.
    fn sign_in(&self, code: &str) -> Result<SignInResult, DomainError>;

    /// Completes the second factor after `sign_in` asked for a password.
    fn check_password(&self, password: &Vec<u8>) -> Result<(), DomainError>;
}

/// An external processor run over archived chat data.
pub trait ProcessorPort: Sized {
    /// Processes the archived data of one chat.
    fn process_chat(&self, chat_id: i64, data_path: &str) -> Result<(), DomainError>;
}

/// The producer side of the media pipeline. A real implementation blocks
/// while the bounded channel is full, so a call returns only `Accepted` or
/// `Closed`; the engine is verified for either outcome.
pub trait MediaSink: Sized {
    /// Offers one media reference to the pipeline.
    fn send(&mut self, media_ref: MediaReference) -> SendOutcome;
}

/// Outcome of offering a media reference to the pipeline.
#[derive(Debug, Clone, Copy, PartialEq, Eq, Structural)]
pub enum SendOutcome {
    /// The reference was taken (possibly after waiting for a slot).
    Accepted,
    /// The consumer is gone; no further reference will be taken.
    Closed,
}

/// Pacing between paginated requests and retry backoffs. Implementations
/// sleep; tests need not.
pub trait Pacer: Sized {
    /// Pauses for the given number of milliseconds.
    fn sleep_ms(&self, ms: u64);
}

/// The interactive surface that drives the engines.
pub trait InputPort: Sized {
    /// Runs the main menu and dispatches to the selected mode.
    fn run(&self) -> Result<(), DomainError>;

    /// Runs the interactive full-backup flow.
    fn run_sync(&self) -> Result<(), DomainError>;

    /// Runs the interactive login flow.
    fn run_auth(&self) -> Result<(), DomainError>;
}

} // verus!
