//! The watcher: periodic text-only sync of the target chats, keyword scan
//! over the newly persisted rows, and alert dispatch to the user's own
//! dialog. The composition root drives the cycle and sleeps between rounds.

use vstd::prelude::*;
use crate::domain::{Chat, DomainError, Message};
use crate::ports::{MediaSink, Pacer, RepoPort, StatePort, TgGateway, spec_has_row, spec_row};
use crate::sync::SyncService;
use crate::textutil::{lowercase, lower_of, spec_contains, str_contains, trim_str, trimmed_of};

verus! {

/// A keyword occurs in the text, both lowercased. The fixed keyword list is
/// `Urgent`, `Bug`, `Error`, `Production`.
pub open spec fn spec_keyword_hit(text: Seq<char>, kw: Seq<char>) -> bool {
    spec_contains(lower_of(text), lower_of(kw))
}

/// The first keyword the text contains, in keyword-list order.
pub open spec fn spec_find_keyword(text: Seq<char>) -> Option<Seq<char>> {
    if spec_keyword_hit(text, "Urgent"@) {
        Option::Some("Urgent"@)
    } else if spec_keyword_hit(text, "Bug"@) {
        Option::Some("Bug"@)
    } else if spec_keyword_hit(text, "Error"@) {
        Option::Some("Error"@)
    } else if spec_keyword_hit(text, "Production"@) {
        Option::Some("Production"@)
    } else {
        Option::None
    }
}

/// Returns the first matching keyword (case-insensitive) in `text`.
pub fn find_keyword(text: &str) -> (r: Option<&'static str>)
    ensures
        r matches Some(k) ==> spec_find_keyword(text@) == Option::Some(k@),
        r is None ==> spec_find_keyword(text@) is None,
{
    let lower = lowercase(text);
    let k0 = lowercase("Urgent");
    if str_contains(lower.as_str(), k0.as_str()) {
        return Some("Urgent");
    }
    let k1 = lowercase("Bug");
    if str_contains(lower.as_str(), k1.as_str()) {
        return Some("Bug");
    }
    let k2 = lowercase("Error");
    if str_contains(lower.as_str(), k2.as_str()) {
        return Some("Error");
    }
    let k3 = lowercase("Production");
    if str_contains(lower.as_str(), k3.as_str()) {
        return Some("Production");
    }
    None
}

/// Alert text trimmed and cut to 200 characters, with an ellipsis where it
/// was longer.
pub open spec fn spec_truncate(t: Seq<char>) -> Seq<char> {
    if t.len() <= 200 {
        t
    } else {
        t.take(200) + "..."@
    }
}

/// Trims the text and truncates it for an alert.
pub fn truncate_message(text: &str) -> (r: String)
    ensures
        r@ == spec_truncate(trimmed_of(text@)),
{
    let t = trim_str(text);
    let n = t.unicode_len();
    if n <= 200 {
        t.to_owned()
    } else {
        let head = t.substring_char(0, 200);
        let mut s = head.to_owned();
        let r = s.concat("...");
        proof {
            assert(r@ =~= trimmed_of(text@).take(200) + "..."@);
        }
        r
    }
}

/// The alert message sent to the user's own dialog.
pub open spec fn spec_alert_text(kw: Seq<char>, title: Seq<char>, text: Seq<char>) -> Seq<char> {
    "[ALERT] Keyword '"@ + kw + "' found in chat '"@ + title + "': "@ + spec_truncate(
        trimmed_of(text),
    )
}

/// Renders the alert message.
pub fn alert_text(kw: &str, title: &str, text: &str) -> (r: String)
    ensures
        r@ == spec_alert_text(kw@, title@, text@),
{
    let mut s = String::new();
    let mut s = s.concat("[ALERT] Keyword '");
    let mut s = s.concat(kw);
    let mut s = s.concat("' found in chat '");
    let mut s = s.concat(title);
    let mut s = s.concat("': ");
    let t = truncate_message(text);
    let r = s.concat(t.as_str());
    proof {
        assert(r@ =~= spec_alert_text(kw@, title@, text@));
    }
    r
}

/// The `(chat id, title)` pairs of the dialogs that are in the target set:
/// exactly the target dialogs, in dialog order, each contributing its id and
/// title; a later dialog with the same id supersedes an earlier one at
/// lookup.
pub fn chat_titles_for_targets(dialogs: &Vec<Chat>, targets: &Vec<i64>) -> (r: Vec<(i64, String)>)
    ensures
        r@.map_values(|p: (i64, String)| (p.0, p.1@)) == dialogs@.filter(
            |c: Chat| targets@.contains(c.id),
        ).map_values(|c: Chat| (c.id, c.title@)),
        forall|k: int|
            0 <= k < r@.len() ==> targets@.contains((#[trigger] r@[k]).0) && (exists|d: int|
                0 <= d < dialogs@.len() && (#[trigger] dialogs@[d])@.id == r@[k].0 as int
                    && dialogs@[d]@.title == r@[k].1@),
{
    let mut out: Vec<(i64, String)> = Vec::new();
    let n = dialogs.len();
    let mut i: usize = 0;
    proof {
        assert(dialogs@.take(0) =~= Seq::<Chat>::empty());
        reveal(Seq::filter);
        assert(out@.map_values(|p: (i64, String)| (p.0, p.1@)) =~= dialogs@.take(0).filter(
            |c: Chat| targets@.contains(c.id),
        ).map_values(|c: Chat| (c.id, c.title@)));
    }
    while i < n
        invariant
            i <= n,
            n == dialogs@.len(),
            out@.map_values(|p: (i64, String)| (p.0, p.1@)) == dialogs@.take(i as int).filter(
                |c: Chat| targets@.contains(c.id),
            ).map_values(|c: Chat| (c.id, c.title@)),
            forall|k: int|
                0 <= k < out@.len() ==> targets@.contains((#[trigger] out@[k]).0) && (exists|
                    d: int,
                |
                    0 <= d < dialogs@.len() && (#[trigger] dialogs@[d])@.id == out@[k].0 as int
                        && dialogs@[d]@.title == out@[k].1@),
        decreases n - i,
    {
        let c = &dialogs[i];
        let ghost pre = out@;
        let hit = contains_i64(targets, c.id);
        if hit {
            let pair = (c.id, c.title.clone());
            out.push(pair);
            proof {
                assert(dialogs@[i as int]@.id == c.id as int);
                assert(dialogs@[i as int]@.title == out@[out@.len() - 1].1@);
            }
        }
        proof {
            reveal(Seq::filter);
            let fp = |p: (i64, String)| (p.0, p.1@);
            let fc = |c: Chat| targets@.contains(c.id);
            let fm = |c: Chat| (c.id, c.title@);
            assert(pre.map_values(fp) == dialogs@.take(i as int).filter(fc).map_values(fm));
            assert(dialogs@.take(i + 1).drop_last() =~= dialogs@.take(i as int));
            assert(dialogs@.take(i + 1).last() == dialogs@[i as int]);
            assert(fc(dialogs@[i as int]) == hit);
            if hit {
                assert(dialogs@.take(i + 1).filter(fc) == dialogs@.take(i as int).filter(
                    fc,
                ).push(dialogs@[i as int]));
                assert(fp(out@[out@.len() - 1]) == fm(dialogs@[i as int]));
                let lhs = out@.map_values(fp);
                let rhs = dialogs@.take(i + 1).filter(fc).map_values(fm);
                assert(out@ == pre.push(out@[out@.len() - 1]));
                assert(lhs.len() == rhs.len());
                assert forall|j: int| 0 <= j < lhs.len() implies lhs[j] == rhs[j] by {
                    if j < pre.len() {
                        assert(out@[j] == pre[j]);
                        assert(lhs[j] == fp(pre[j]));
                        assert(pre.map_values(fp)[j] == fp(pre[j]));
                        assert(dialogs@.take(i + 1).filter(fc)[j] == dialogs@.take(
                            i as int,
                        ).filter(fc)[j]);
                        assert(rhs[j] == fm(dialogs@.take(i as int).filter(fc)[j]));
                        assert(dialogs@.take(i as int).filter(fc).map_values(fm)[j] == fm(
                            dialogs@.take(i as int).filter(fc)[j],
                        ));
                    } else {
                        assert(j == out@.len() - 1);
                        assert(dialogs@.take(i + 1).filter(fc)[j] == dialogs@[i as int]);
                        assert(lhs[j] == fp(out@[j]));
                        assert(rhs[j] == fm(dialogs@[i as int]));
                    }
                };
                assert(lhs =~= rhs);
            } else {
                assert(dialogs@.take(i + 1).filter(fc) == dialogs@.take(i as int).filter(fc));
                assert(out@.map_values(fp) == dialogs@.take(i + 1).filter(fc).map_values(fm));
            }
        }
        i = i + 1;
    }
    proof {
        assert(dialogs@.take(n as int) =~= dialogs@);
    }
    out
}

fn contains_i64(v: &Vec<i64>, x: i64) -> (r: bool)
    ensures
        r == v@.contains(x),
{
    let n = v.len();
    let mut i: usize = 0;
    while i < n
        invariant
            i <= n,
            n == v@.len(),
            forall|k: int| 0 <= k < i ==> v@[k] != x,
        decreases n - i,
    {
        if v[i] == x {
            return true;
        }
        i = i + 1;
    }
    proof {
        if v@.contains(x) {
            let k = v@.index_of(x);
            assert(false);
        }
    }
    false
}

/// The title of the last pair carrying the chat id, `None` when no pair
/// does.
pub open spec fn spec_title_lookup(titles: Seq<(i64, Seq<char>)>, chat_id: i64) -> Option<
    Seq<char>,
>
    decreases titles.len(),
{
    if titles.len() == 0 {
        Option::None
    } else if titles.last().0 == chat_id {
        Option::Some(titles.last().1)
    } else {
        spec_title_lookup(titles.drop_last(), chat_id)
    }
}

/// The title shown for a chat: the last matching pair's title, or the
/// decimal chat id where no pair matches.
pub fn title_of(titles: &Vec<(i64, String)>, chat_id: i64) -> (r: String)
    ensures
        r@ == match spec_title_lookup(
            titles@.map_values(|p: (i64, String)| (p.0, p.1@)),
            chat_id,
        ) {
            Option::Some(t) => t,
            Option::None => crate::textutil::spec_dec_i64(chat_id as int),
        },
{
    let ghost tv = titles@.map_values(|p: (i64, String)| (p.0, p.1@));
    let n = titles.len();
    let mut found: Option<usize> = None;
    let mut i: usize = 0;
    proof {
        assert(tv.take(0) =~= Seq::<(i64, Seq<char>)>::empty());
    }
    while i < n
        invariant
            i <= n,
            n == titles@.len(),
            tv == titles@.map_values(|p: (i64, String)| (p.0, p.1@)),
            found matches Some(k) ==> k < i && tv[k as int].0 == chat_id,
            spec_title_lookup(tv.take(i as int), chat_id) == match found {
                Option::Some(k) => Option::Some(tv[k as int].1),
                Option::None => Option::None,
            },
        decreases n - i,
    {
        proof {
            assert(tv.take(i + 1).drop_last() =~= tv.take(i as int));
            assert(tv.take(i + 1).last() == tv[i as int]);
        }
        if titles[i].0 == chat_id {
            found = Some(i);
            proof {
                assert(tv[i as int].0 == chat_id);
            }
        }
        i = i + 1;
    }
    proof {
        assert(tv.take(n as int) =~= tv);
    }
    match found {
        Some(k) => titles[k].1.clone(),
        None => crate::textutil::fmt_i64(chat_id),
    }
}

/// Outcome of one watcher round.
#[derive(Debug, Clone, Copy, PartialEq, Eq, Structural)]
pub enum CycleOutcome {
    /// The target set was empty; nothing was synced.
    NoTargets,
    /// Every target chat was attempted.
    Ran,
}

/// The watcher engine: drives text-only syncs of the target chats and sends
/// keyword alerts. The composition root calls [`WatcherService::run_cycle`]
/// in a loop, sleeping `cycle_secs` between rounds.
pub struct WatcherService {
    /// The sync engine used for each target chat.
    pub sync_service: SyncService,
    /// Seconds slept between rounds.
    pub cycle_secs: u64,
}

impl WatcherService {
    /// A new watcher.
    pub fn new(sync_service: SyncService, cycle_secs: u64) -> (r: WatcherService)
        ensures
            r.cycle_secs == cycle_secs,
    {
        WatcherService { sync_service, cycle_secs }
    }

    /// Syncs one chat text-only, reads back as many newest rows as were
    /// synced, and sends an alert for each row containing a keyword. The
    /// store is only ever extended, and only for this chat above its entry
    /// checkpoint.
    pub fn sync_and_notify_keywords<G: TgGateway, R: RepoPort, S: StatePort, M: MediaSink, P: Pacer>(
        &self,
        tg: &G,
        repo: &mut R,
        state: &mut S,
        media: &mut M,
        pacer: &P,
        chat_id: i64,
        saved_messages_id: i64,
        chat_title: &str,
    ) -> (r: Result<(), DomainError>)
        requires
            old(repo).repo_inv(),
            old(state).state_inv(),
        ensures
            final(repo).repo_inv(),
            final(state).state_inv(),
            old(state).spec_checkpoint(chat_id as int) <= final(state).spec_checkpoint(
                chat_id as int,
            ),
            forall|c: int|
                c != chat_id as int ==> final(state).spec_checkpoint(c) == old(
                    state,
                ).spec_checkpoint(c),
            forall|c: int, id: int|
                spec_has_row(old(repo).rows(), c, id) ==> spec_has_row(final(repo).rows(), c, id)
                    && #[trigger] spec_row(final(repo).rows(), c, id) == spec_row(
                    old(repo).rows(),
                    c,
                    id,
                ),
            forall|c: int, id: int|
                #[trigger] spec_has_row(final(repo).rows(), c, id) && !spec_has_row(
                    old(repo).rows(),
                    c,
                    id,
                ) ==> c == chat_id as int && id > old(state).spec_checkpoint(chat_id as int),
            final(repo).blacklist_view() == old(repo).blacklist_view(),
            final(repo).targets_view() == old(repo).targets_view(),
    {
        let stats = match self.sync_service.sync_chat(
            tg,
            repo,
            state,
            media,
            pacer,
            chat_id,
            100,
            false,
        ) {
            Ok(s) => s,
            Err(e) => {
                return Err(e);
            },
        };
        if stats.messages_synced == 0 {
            return Ok(());
        }
        let back: u32 = if stats.messages_synced > 4294967295usize {
            4294967295u32
        } else {
            stats.messages_synced as u32
        };
        let new_messages = match repo.get_messages(chat_id, back, 0) {
            Ok(v) => v,
            Err(e) => {
                return Err(e);
            },
        };
        let n = new_messages.len();
        let mut i: usize = 0;
        while i < n
            invariant
                i <= n,
                n == new_messages@.len(),
            decreases n - i,
        {
            let msg: &Message = &new_messages[i];
            match find_keyword(msg.text.as_str()) {
                Some(kw) => {
                    let alert = alert_text(kw, chat_title, msg.text.as_str());
                    let _ = tg.send_message(saved_messages_id, alert.as_str());
                },
                None => {},
            }
            i = i + 1;
        }
        Ok(())
    }

    /// One watcher round: reads the target set, fetches the dialog titles,
    /// and syncs each target with keyword alerts. A per-chat failure never
    /// halts the round.
    pub fn run_cycle<G: TgGateway, R: RepoPort, S: StatePort, M: MediaSink, P: Pacer>(
        &self,
        tg: &G,
        repo: &mut R,
        state: &mut S,
        media: &mut M,
        pacer: &P,
        saved_messages_id: i64,
    ) -> (r: Result<CycleOutcome, DomainError>)
        requires
            old(repo).repo_inv(),
            old(state).state_inv(),
        ensures
            final(repo).repo_inv(),
            final(state).state_inv(),
            forall|c: int|
                old(state).spec_checkpoint(c) <= #[trigger] final(state).spec_checkpoint(c),
            forall|c: int, id: int|
                spec_has_row(old(repo).rows(), c, id) ==> spec_has_row(final(repo).rows(), c, id)
                    && #[trigger] spec_row(final(repo).rows(), c, id) == spec_row(
                    old(repo).rows(),
                    c,
                    id,
                ),
            final(repo).blacklist_view() == old(repo).blacklist_view(),
            final(repo).targets_view() == old(repo).targets_view(),
            r matches Ok(o) ==> (o == CycleOutcome::NoTargets <==> old(repo).targets_view()
                == Set::<int>::empty()),
    {
        let targets = match repo.get_target_ids() {
            Ok(t) => t,
            Err(e) => {
                return Err(e);
            },
        };
        if targets.len() == 0 {
            proof {
                assert(targets@.map_values(|x: i64| x as int).to_set() =~= Set::<int>::empty());
            }
            return Ok(CycleOutcome::NoTargets);
        }
        proof {
            let tv = targets@.map_values(|x: i64| x as int);
            assert(tv.contains(tv[0]));
            assert(old(repo).targets_view().contains(tv[0]));
            assert(!Set::<int>::empty().contains(tv[0]));
            assert(old(repo).targets_view() != Set::<int>::empty());
        }
        let dialogs = match tg.get_dialogs() {
            Ok(d) => d,
            Err(e) => {
                return Err(e);
            },
        };
        let titles = chat_titles_for_targets(&dialogs, &targets);
        let n = targets.len();
        let mut i: usize = 0;
        while i < n
            invariant
                i <= n,
                n == targets@.len(),
                repo.repo_inv(),
                state.state_inv(),
                forall|c: int|
                    old(state).spec_checkpoint(c) <= #[trigger] state.spec_checkpoint(c),
                forall|c: int, id: int|
                    spec_has_row(old(repo).rows(), c, id) ==> spec_has_row(repo.rows(), c, id)
                        && #[trigger] spec_row(repo.rows(), c, id) == spec_row(
                        old(repo).rows(),
                        c,
                        id,
                    ),
                repo.blacklist_view() == old(repo).blacklist_view(),
                repo.targets_view() == old(repo).targets_view(),
                old(repo).targets_view() != Set::<int>::empty(),
            decreases n - i,
        {
            let chat_id = targets[i];
            let title = title_of(&titles, chat_id);
            let _ = self.sync_and_notify_keywords(
                tg,
                repo,
                state,
                media,
                pacer,
                chat_id,
                saved_messages_id,
                title.as_str(),
            );
            i = i + 1;
        }
        Ok(CycleOutcome::Ran)
    }
}

} // verus!
