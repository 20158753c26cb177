//! The verified store model: one value holding every durable table of the
//! archive — message rows keyed by `(chat_id, id)`, the blacklist and target
//! sets, the entity registry, and the per-week analysis log.
//!
//! The real deployment keeps these tables in an embedded SQL database at the
//! I/O edge; the rules proved here (insert-or-ignore keyed saves, full
//! replace of the id sets, registry upserts, the service-message mask and
//! week grouping of the analysis views) are the store semantics every
//! backend must show.

use vstd::prelude::*;
use crate::domain::{AnalysisResult, AnalysisResultView, DomainError, Message, MessageView, WeekGroup};
use crate::ports::{
    batch_has_id, get_messages_post, row_index, rows_unique, save_messages_post,
    sorted_by_date_asc, sorted_by_date_desc, spec_chat_week_rows, spec_eligible,
    spec_eligible_rows, spec_has_row, spec_message_weeks, spec_row, spec_week_rows, with_chat,
    EntityRecordView,
};
use crate::textutil::{lex_le, lex_le_total, lex_le_transitive};
use crate::timefmt::spec_week_of;

verus! {

/// One entity-registry row: the durable access hash of a peer.
#[derive(Debug, Clone)]
pub struct EntityRecord {
    pub peer_id: i64,
    pub access_hash: i64,
    pub peer_kind: String,
    pub username: Option<String>,
    pub updated_at: i64,
}

impl View for EntityRecord {
    type V = EntityRecordView;

    open spec fn view(&self) -> EntityRecordView {
        EntityRecordView {
            access_hash: self.access_hash as int,
            peer_kind: self.peer_kind@,
            username: crate::domain::opt_text_view(self.username),
            updated_at: self.updated_at as int,
        }
    }
}

/// The in-memory store state.
pub struct Store {
    rows: Vec<Message>,
    blacklist: Vec<i64>,
    targets: Vec<i64>,
    registry: Vec<EntityRecord>,
    analysis_log: Vec<AnalysisResult>,
}

// ─── lemmas about keyed rows ─────────────────────────────────────────────────

/// In a key-unique row sequence, any index whose row matches the key gives
/// the row value.
pub proof fn lemma_row_value(rows: Seq<MessageView>, c: int, id: int, i: int)
    requires
        rows_unique(rows),
        0 <= i < rows.len(),
        rows[i].chat_id == c,
        rows[i].id == id,
    ensures
        spec_has_row(rows, c, id),
        spec_row(rows, c, id) == rows[i],
{
    assert(spec_has_row(rows, c, id));
    let j = row_index(rows, c, id);
    assert(0 <= j < rows.len() && rows[j].chat_id == c && rows[j].id == id);
    if i != j {
        assert(false);
    }
}

/// At-most-once storage: in a well-formed row sequence, any two indexes
/// holding the same `(chat_id, id)` key are the same index — however many
/// times the platform returned that id, one row stands for it.
pub proof fn lemma_at_most_once(rows: Seq<MessageView>, c: int, id: int, i: int, j: int)
    requires
        rows_unique(rows),
        0 <= i < rows.len(),
        0 <= j < rows.len(),
        rows[i].chat_id == c && rows[i].id == id,
        rows[j].chat_id == c && rows[j].id == id,
    ensures
        i == j,
{
}

/// Appending a fresh key extends the key set by exactly that key and leaves
/// every stored row readable unchanged.
pub proof fn lemma_rows_push(rows: Seq<MessageView>, x: MessageView)
    requires
        rows_unique(rows),
        !spec_has_row(rows, x.chat_id, x.id),
    ensures
        rows_unique(rows.push(x)),
        forall|c: int, id: int|
            #[trigger] spec_has_row(rows.push(x), c, id) <==> spec_has_row(rows, c, id) || (c
                == x.chat_id && id == x.id),
        forall|c: int, id: int|
            spec_has_row(rows, c, id) ==> #[trigger] spec_row(rows.push(x), c, id) == spec_row(
                rows,
                c,
                id,
            ),
        spec_row(rows.push(x), x.chat_id, x.id) == x,
{
    let post = rows.push(x);
    assert forall|c: int, id: int| #[trigger] spec_has_row(post, c, id) implies spec_has_row(
        rows,
        c,
        id,
    ) || (c == x.chat_id && id == x.id) by {
        let i = choose|i: int| 0 <= i < post.len() && post[i].chat_id == c && post[i].id == id;
        if i < rows.len() {
            assert(rows[i].chat_id == c && rows[i].id == id);
        }
    };
    assert forall|c: int, id: int|
        spec_has_row(rows, c, id) || (c == x.chat_id && id == x.id) implies #[trigger] spec_has_row(
        post,
        c,
        id,
    ) by {
        if spec_has_row(rows, c, id) {
            let i = choose|i: int| 0 <= i < rows.len() && rows[i].chat_id == c && rows[i].id == id;
            assert(post[i].chat_id == c && post[i].id == id);
        } else {
            assert(post[rows.len() as int].chat_id == c && post[rows.len() as int].id == id);
        }
    };
    assert forall|i: int, j: int| 0 <= i < j < post.len() implies !(post[i].chat_id
        == post[j].chat_id && post[i].id == post[j].id) by {
        if j == rows.len() {
            if post[i].chat_id == x.chat_id && post[i].id == x.id {
                assert(spec_has_row(rows, x.chat_id, x.id));
            }
        }
    };
    assert forall|c: int, id: int| spec_has_row(rows, c, id) implies #[trigger] spec_row(
        post,
        c,
        id,
    ) == spec_row(rows, c, id) by {
        let i = row_index(rows, c, id);
        assert(0 <= i < rows.len() && rows[i].chat_id == c && rows[i].id == id);
        lemma_row_value(post, c, id, i);
    };
    lemma_row_value(post, x.chat_id, x.id, rows.len() as int);
}

/// Extending a batch prefix by one element extends the set of ids it carries
/// by that element's id.
pub proof fn lemma_batch_take_extend(batch: Seq<MessageView>, k: int)
    requires
        0 <= k < batch.len(),
    ensures
        forall|id: int|
            #[trigger] batch_has_id(batch.take(k + 1), id) <==> batch_has_id(batch.take(k), id)
                || batch[k].id == id,
{
    assert forall|id: int| #[trigger] batch_has_id(batch.take(k + 1), id) implies batch_has_id(
        batch.take(k),
        id,
    ) || batch[k].id == id by {
        let i = choose|i: int|
            0 <= i < batch.take(k + 1).len() && (#[trigger] batch.take(k + 1)[i]).id == id;
        if i < k {
            assert(batch.take(k)[i].id == id);
        }
    };
    assert forall|id: int|
        batch_has_id(batch.take(k), id) || batch[k].id == id implies #[trigger] batch_has_id(
        batch.take(k + 1),
        id,
    ) by {
        if batch_has_id(batch.take(k), id) {
            let i = choose|i: int|
                0 <= i < batch.take(k).len() && (#[trigger] batch.take(k)[i]).id == id;
            assert(batch.take(k + 1)[i].id == id);
        } else {
            assert(batch.take(k + 1)[k].id == id);
        }
    };
}

/// Appending to an id sequence inserts into its set image.
proof fn lemma_push_to_set_int(s: Seq<i64>, x: i64)
    ensures
        (s.push(x)).map_values(|v: i64| v as int).to_set() =~= s.map_values(|v: i64| v as int)
            .to_set().insert(x as int),
{
    let f = |v: i64| v as int;
    let a = (s.push(x)).map_values(f);
    let b = s.map_values(f);
    assert(a =~= b.push(x as int));
    assert forall|y: int| a.to_set().contains(y) implies b.to_set().contains(y) || y
        == x as int by {
        let i = choose|i: int| 0 <= i < a.len() && a[i] == y;
        if i < b.len() {
            assert(b[i] == y);
        }
    };
    assert forall|y: int| b.to_set().contains(y) || y == x as int implies a.to_set().contains(
        y,
    ) by {
        if b.to_set().contains(y) {
            let i = choose|i: int| 0 <= i < b.len() && b[i] == y;
            assert(a[i] == y);
        } else {
            assert(a[b.len() as int] == y);
        }
    };
}

/// A sequence element is in the set image.
proof fn lemma_contains_to_set_int(s: Seq<i64>, x: i64)
    requires
        s.contains(x),
    ensures
        s.map_values(|v: i64| v as int).to_set().contains(x as int),
{
    let i = choose|i: int| 0 <= i < s.len() && s[i] == x;
    assert(s.map_values(|v: i64| v as int)[i] == x as int);
}

/// Filtering a one-longer prefix appends the new element when it matches.
proof fn lemma_filter_take_extend(s: Seq<MessageView>, p: spec_fn(MessageView) -> bool, i: int)
    requires
        0 <= i < s.len(),
    ensures
        s.take(i + 1).filter(p) == if p(s[i]) {
            s.take(i).filter(p).push(s[i])
        } else {
            s.take(i).filter(p)
        },
{
    assert(s.take(i + 1).drop_last() =~= s.take(i));
    assert(s.take(i + 1).last() == s[i]);
    reveal(Seq::filter);
}

/// Selection sort of messages by date, newest first. The result is a
/// permutation of the input.
fn sort_messages_by_date_desc(input: Vec<Message>) -> (r: Vec<Message>)
    ensures
        r@.map_values(|m: Message| m@).to_multiset() == input@.map_values(|m: Message| m@)
            .to_multiset(),
        sorted_by_date_desc(r@.map_values(|m: Message| m@)),
{
    broadcast use vstd::seq_lib::group_to_multiset_ensures;

    let ghost f = |m: Message| m@;
    let ghost goal = input@.map_values(f).to_multiset();
    let mut src = input;
    let mut out: Vec<Message> = Vec::new();
    while src.len() > 0
        invariant
            goal == input@.map_values(f).to_multiset(),
            f == (|m: Message| m@),
            out@.map_values(f).to_multiset().add(src@.map_values(f).to_multiset()) == goal,
            sorted_by_date_desc(out@.map_values(f)),
            forall|i: int, j: int|
                0 <= i < out@.len() && 0 <= j < src@.len() ==> (#[trigger] out@.map_values(f)[
                    i
                ]).date >= (#[trigger] src@.map_values(f)[j]).date,
        decreases src@.len(),
    {
        let n = src.len();
        let mut mi: usize = 0;
        let mut k: usize = 1;
        while k < n
            invariant
                n == src@.len(),
                0 < n,
                mi < k,
                k <= n,
                forall|t: int| 0 <= t < k ==> src@[mi as int]@.date >= (#[trigger] src@[t]@).date,
            decreases n - k,
        {
            if src[k].date > src[mi].date {
                mi = k;
            }
            k = k + 1;
        }
        let ghost pre_src = src@;
        let ghost pre_out = out@;
        let picked = src.remove(mi);
        out.push(picked);
        proof {
            broadcast use vstd::seq_lib::group_to_multiset_ensures;

            let pv = picked@;
            assert(src@ =~= pre_src.remove(mi as int));
            assert(src@.map_values(f) =~= pre_src.map_values(f).remove(mi as int));
            assert(out@.map_values(f) =~= pre_out.map_values(f).push(pv));
            assert(pre_src.map_values(f)[mi as int] == pv);
            assert(pre_src.map_values(f).remove(mi as int).to_multiset() =~= pre_src.map_values(
                f,
            ).to_multiset().remove(pv));
            assert(pre_out.map_values(f).push(pv).to_multiset() =~= pre_out.map_values(
                f,
            ).to_multiset().insert(pv));
            assert(src@.map_values(f).to_multiset() =~= pre_src.map_values(f).to_multiset()
                .remove(pv));
            assert(out@.map_values(f).to_multiset() =~= pre_out.map_values(f).to_multiset()
                .insert(pv));
            assert(pre_src.map_values(f).to_multiset().contains(pv));
            assert(out@.map_values(f).to_multiset().add(src@.map_values(f).to_multiset()) =~= goal);
            assert forall|i: int, j: int| 0 <= i < j < out@.len() implies (
            #[trigger] out@.map_values(f)[i]).date >= (#[trigger] out@.map_values(f)[j]).date by {
                if j == pre_out.len() {
                    assert(out@.map_values(f)[i] == pre_out.map_values(f)[i]);
                    assert(pre_out.map_values(f)[i].date >= pre_src.map_values(f)[
                        mi as int
                    ].date);
                }
            };
            assert forall|i: int, j: int|
                0 <= i < out@.len() && 0 <= j < src@.len() implies (#[trigger] out@.map_values(f)[
                i
            ]).date >= (#[trigger] src@.map_values(f)[j]).date by {
                if i < pre_out.len() {
                } else {
                    if j < mi {
                        assert(src@.map_values(f)[j] == pre_src.map_values(f)[j]);
                    } else {
                        assert(src@.map_values(f)[j] == pre_src.map_values(f)[j + 1]);
                    }
                }
            };
        }
    }
    out
}

// ─── analyzable rows and week keys ───────────────────────────────────────────

/// Extending a row prefix extends its analyzable rows when the new row is
/// analyzable.
proof fn lemma_eligible_rows_take_extend(rows: Seq<MessageView>, chat: int, i: int)
    requires
        0 <= i < rows.len(),
    ensures
        spec_eligible_rows(rows.take(i + 1), chat) == if spec_eligible(rows[i], chat) {
            spec_eligible_rows(rows.take(i), chat).push(rows[i])
        } else {
            spec_eligible_rows(rows.take(i), chat)
        },
{
    reveal(Seq::filter);
    assert(rows.take(i + 1).drop_last() =~= rows.take(i));
    assert(rows.take(i + 1).last() == rows[i]);
}

/// Extending a row prefix extends its per-week analyzable rows when the new
/// row is analyzable and falls in that week.
proof fn lemma_chat_week_rows_take_extend(rows: Seq<MessageView>, chat: int, w: Seq<char>, i: int)
    requires
        0 <= i < rows.len(),
    ensures
        spec_chat_week_rows(rows.take(i + 1), chat, w) == if spec_eligible(rows[i], chat)
            && spec_week_of(rows[i].date) == w {
            spec_chat_week_rows(rows.take(i), chat, w).push(rows[i])
        } else {
            spec_chat_week_rows(rows.take(i), chat, w)
        },
{
    reveal(Seq::filter);
    assert(rows.take(i + 1).drop_last() =~= rows.take(i));
    assert(rows.take(i + 1).last() == rows[i]);
}

/// Filtering the analyzable rows down to one week equals the one-pass
/// combined filter.
proof fn lemma_week_rows_compose(rows: Seq<MessageView>, chat: int, w: Seq<char>)
    ensures
        spec_chat_week_rows(rows, chat, w) == spec_week_rows(spec_eligible_rows(rows, chat), w),
    decreases rows.len(),
{
    reveal(Seq::filter);
    if rows.len() == 0 {
        assert(spec_chat_week_rows(rows, chat, w) =~= spec_week_rows(
            spec_eligible_rows(rows, chat),
            w,
        ));
    } else {
        let r0 = rows.drop_last();
        let x = rows.last();
        lemma_week_rows_compose(r0, chat, w);
        let e0 = spec_eligible_rows(r0, chat);
        if spec_eligible(x, chat) {
            assert(spec_eligible_rows(rows, chat) == e0.push(x));
            assert(e0.push(x).drop_last() =~= e0);
            assert(e0.push(x).last() == x);
        }
    }
}

/// Extending a row prefix extends its populated week-key set by the new
/// row's week when the row is analyzable.
proof fn lemma_message_weeks_take_extend(rows: Seq<MessageView>, chat: int, i: int)
    requires
        0 <= i < rows.len(),
    ensures
        spec_message_weeks(rows.take(i + 1), chat) == if spec_eligible(rows[i], chat) {
            spec_message_weeks(rows.take(i), chat).insert(spec_week_of(rows[i].date))
        } else {
            spec_message_weeks(rows.take(i), chat)
        },
{
    lemma_eligible_rows_take_extend(rows, chat, i);
    let e0 = spec_eligible_rows(rows.take(i), chat);
    let e1 = spec_eligible_rows(rows.take(i + 1), chat);
    if spec_eligible(rows[i], chat) {
        assert(e1 == e0.push(rows[i]));
        assert forall|w: Seq<char>| spec_message_weeks(rows.take(i + 1), chat).contains(
            w,
        ) implies spec_message_weeks(rows.take(i), chat).insert(spec_week_of(rows[i].date))
            .contains(w) by {
            let k = choose|k: int|
                0 <= k < e1.len() && #[trigger] spec_week_of(e1[k].date) == w;
            if k < e0.len() {
                assert(spec_week_of(e0[k].date) == w);
            }
        };
        assert forall|w: Seq<char>|
            spec_message_weeks(rows.take(i), chat).insert(spec_week_of(rows[i].date)).contains(
                w,
            ) implies spec_message_weeks(rows.take(i + 1), chat).contains(w) by {
            if w == spec_week_of(rows[i].date) {
                assert(spec_week_of(e1[e0.len() as int].date) == w);
            } else {
                let k = choose|k: int|
                    0 <= k < e0.len() && #[trigger] spec_week_of(e0[k].date) == w;
                assert(spec_week_of(e1[k].date) == w);
            }
        };
        assert(spec_message_weeks(rows.take(i + 1), chat) =~= spec_message_weeks(
            rows.take(i),
            chat,
        ).insert(spec_week_of(rows[i].date)));
    } else {
        assert(e1 == e0);
        assert forall|w: Seq<char>| spec_message_weeks(rows.take(i + 1), chat).contains(
            w,
        ) implies spec_message_weeks(rows.take(i), chat).contains(w) by {
            let k = choose|k: int|
                0 <= k < e1.len() && #[trigger] spec_week_of(e1[k].date) == w;
            assert(spec_week_of(e0[k].date) == w);
        };
        assert forall|w: Seq<char>| spec_message_weeks(rows.take(i), chat).contains(w) implies
            spec_message_weeks(rows.take(i + 1), chat).contains(w) by {
            let k = choose|k: int|
                0 <= k < e0.len() && #[trigger] spec_week_of(e0[k].date) == w;
            assert(spec_week_of(e1[k].date) == w);
        };
        assert(spec_message_weeks(rows.take(i + 1), chat) =~= spec_message_weeks(
            rows.take(i),
            chat,
        ));
    }
}

/// Appending to a week list inserts its key into the set image.
proof fn lemma_push_week_set(s: Seq<WeekGroup>, x: WeekGroup)
    ensures
        (s.push(x)).map_values(|g: WeekGroup| g@).to_set() =~= s.map_values(|g: WeekGroup| g@)
            .to_set().insert(x@),
{
    let f = |g: WeekGroup| g@;
    let a = (s.push(x)).map_values(f);
    let b = s.map_values(f);
    assert(a =~= b.push(x@));
    assert forall|y: Seq<char>| a.to_set().contains(y) implies b.to_set().contains(y) || y
        == x@ by {
        let i = choose|i: int| 0 <= i < a.len() && a[i] == y;
        if i < b.len() {
            assert(b[i] == y);
        }
    };
    assert forall|y: Seq<char>| b.to_set().contains(y) || y == x@ implies a.to_set().contains(
        y,
    ) by {
        if b.to_set().contains(y) {
            let i = choose|i: int| 0 <= i < b.len() && b[i] == y;
            assert(a[i] == y);
        } else {
            assert(a[b.len() as int] == y);
        }
    };
}

/// A week with at least one analyzable row has a non-empty row group.
proof fn lemma_week_rows_nonempty(eligible: Seq<MessageView>, w: Seq<char>, k: int)
    requires
        0 <= k < eligible.len(),
        spec_week_of(eligible[k].date) == w,
    ensures
        spec_week_rows(eligible, w).len() > 0,
    decreases eligible.len(),
{
    reveal(Seq::filter);
    if k == eligible.len() - 1 {
    } else {
        lemma_week_rows_nonempty(eligible.drop_last(), w, k);
    }
}

/// Groups keyed by a sorted duplicate-free week list, each non-empty,
/// date-ascending and holding exactly its week's rows, with every analyzable
/// row's week among the keys, satisfy the grouped-query contract.
proof fn lemma_by_week_post_intro(
    eligible: Seq<MessageView>,
    out: Seq<(Seq<char>, Seq<MessageView>)>,
    weeks: Seq<Seq<char>>,
)
    requires
        out.len() == weeks.len(),
        forall|i: int| 0 <= i < out.len() ==> (#[trigger] out[i].0) == weeks[i],
        forall|i: int, j: int|
            0 <= i < j < weeks.len() ==> lex_le(#[trigger] weeks[i], #[trigger] weeks[j]),
        weeks.no_duplicates(),
        forall|i: int| 0 <= i < out.len() ==> (#[trigger] out[i].1).len() > 0,
        forall|i: int| 0 <= i < out.len() ==> sorted_by_date_asc(#[trigger] out[i].1),
        forall|i: int|
            0 <= i < out.len() ==> (#[trigger] out[i].1).to_multiset() == spec_week_rows(
                eligible,
                weeks[i],
            ).to_multiset(),
        forall|k: int|
            0 <= k < eligible.len() ==> weeks.contains(
                spec_week_of(#[trigger] eligible[k].date),
            ),
    ensures
        crate::ports::by_week_post(eligible, out),
{
    assert forall|i: int, j: int| 0 <= i < j < out.len() implies lex_le(out[i].0, out[j].0)
        && out[i].0 != out[j].0 by {
        assert(out[i].0 == weeks[i]);
        assert(out[j].0 == weeks[j]);
    };
    assert forall|k: int| 0 <= k < eligible.len() implies crate::ports::group_keys(out).contains(
        spec_week_of(#[trigger] eligible[k].date),
    ) by {
        let wk = spec_week_of(eligible[k].date);
        assert(weeks.contains(wk));
        let i = weeks.index_of(wk);
        assert(0 <= i < weeks.len() && weeks[i] == wk);
        assert(out[i].0 == wk);
    };
    assert(crate::ports::weeks_covered(eligible, out));
}

/// Sequences with the same multiset have the same element set.
proof fn lemma_same_multiset_same_set(a: Seq<Seq<char>>, b: Seq<Seq<char>>)
    requires
        a.to_multiset() == b.to_multiset(),
    ensures
        a.to_set() == b.to_set(),
{
    broadcast use vstd::seq_lib::group_to_multiset_ensures;

    assert forall|x: Seq<char>| a.to_set().contains(x) implies b.to_set().contains(x) by {
        assert(a.to_multiset().count(x) > 0);
    };
    assert forall|x: Seq<char>| b.to_set().contains(x) implies a.to_set().contains(x) by {
        assert(b.to_multiset().count(x) > 0);
    };
    assert(a.to_set() =~= b.to_set());
}

/// A permutation of a duplicate-free sequence is duplicate-free.
proof fn lemma_same_multiset_no_dup(a: Seq<Seq<char>>, b: Seq<Seq<char>>)
    requires
        a.to_multiset() == b.to_multiset(),
        a.no_duplicates(),
    ensures
        b.no_duplicates(),
{
    a.lemma_multiset_has_no_duplicates();
    b.lemma_multiset_has_no_duplicates_conv();
}

/// Whether the message takes part in analysis: right chat, non-empty text,
/// no join/leave service phrase.
fn eligible_exec(m: &Message, chat_id: i64) -> (r: bool)
    ensures
        r == spec_eligible(m@, chat_id as int),
{
    if m.chat_id != chat_id {
        return false;
    }
    if m.text.as_str().is_empty() {
        return false;
    }
    if crate::textutil::str_contains(m.text.as_str(), "joined the group") {
        return false;
    }
    if crate::textutil::str_contains(m.text.as_str(), "left the group") {
        return false;
    }
    true
}

/// Whether the week list holds a key with this text.
fn week_in(v: &Vec<WeekGroup>, w: &str) -> (r: bool)
    ensures
        r == v@.map_values(|g: WeekGroup| g@).contains(w@),
{
    let n = v.len();
    let mut i: usize = 0;
    while i < n
        invariant
            i <= n,
            n == v@.len(),
            forall|k: int| 0 <= k < i ==> (#[trigger] v@[k])@ != w@,
        decreases n - i,
    {
        if crate::textutil::str_eq(v[i].as_str(), w) {
            proof {
                assert(v@.map_values(|g: WeekGroup| g@)[i as int] == w@);
            }
            return true;
        }
        i = i + 1;
    }
    proof {
        let ms = v@.map_values(|g: WeekGroup| g@);
        if ms.contains(w@) {
            let k = ms.index_of(w@);
            assert(0 <= k < ms.len() && ms[k] == w@);
            assert(v@[k]@ == w@);
            assert(false);
        }
    }
    false
}

/// Selection sort of week keys, lexicographically ascending. The result is a
/// permutation of the input.
fn sort_weeks_lex(input: Vec<WeekGroup>) -> (r: Vec<WeekGroup>)
    ensures
        r@.map_values(|g: WeekGroup| g@).to_multiset() == input@.map_values(|g: WeekGroup| g@)
            .to_multiset(),
        forall|i: int, j: int|
            0 <= i < j < r@.len() ==> lex_le((#[trigger] r@[i])@, (#[trigger] r@[j])@),
{
    broadcast use vstd::seq_lib::group_to_multiset_ensures;

    let ghost f = |g: WeekGroup| g@;
    let ghost goal = input@.map_values(f).to_multiset();
    let mut src = input;
    let mut out: Vec<WeekGroup> = Vec::new();
    while src.len() > 0
        invariant
            goal == input@.map_values(f).to_multiset(),
            f == (|g: WeekGroup| g@),
            out@.map_values(f).to_multiset().add(src@.map_values(f).to_multiset()) == goal,
            forall|i: int, j: int|
                0 <= i < j < out@.len() ==> lex_le(
                    #[trigger] out@.map_values(f)[i],
                    #[trigger] out@.map_values(f)[j],
                ),
            forall|i: int, j: int|
                0 <= i < out@.len() && 0 <= j < src@.len() ==> lex_le(
                    #[trigger] out@.map_values(f)[i],
                    #[trigger] src@.map_values(f)[j],
                ),
        decreases src@.len(),
    {
        let n = src.len();
        let mut mi: usize = 0;
        let mut k: usize = 1;
        proof {
            crate::textutil::lex_le_reflexive(src@[0]@);
        }
        while k < n
            invariant
                n == src@.len(),
                0 < n,
                mi < k,
                k <= n,
                forall|t: int|
                    0 <= t < k ==> lex_le(src@[mi as int]@, #[trigger] src@[t]@),
            decreases n - k,
        {
            if !crate::textutil::str_le(src[mi].as_str(), src[k].as_str()) {
                proof {
                    lex_le_total(src@[mi as int]@, src@[k as int]@);
                    assert forall|t: int| 0 <= t < k + 1 implies lex_le(
                        src@[k as int]@,
                        #[trigger] src@[t]@,
                    ) by {
                        if t < k {
                            lex_le_transitive(src@[k as int]@, src@[mi as int]@, src@[t]@);
                        } else {
                            crate::textutil::lex_le_reflexive(src@[k as int]@);
                        }
                    };
                }
                mi = k;
            }
            k = k + 1;
        }
        let ghost pre_src = src@;
        let ghost pre_out = out@;
        let picked = src.remove(mi);
        out.push(picked);
        proof {
            broadcast use vstd::seq_lib::group_to_multiset_ensures;

            let pv = picked@;
            assert(src@ =~= pre_src.remove(mi as int));
            assert(src@.map_values(f) =~= pre_src.map_values(f).remove(mi as int));
            assert(out@.map_values(f) =~= pre_out.map_values(f).push(pv));
            assert(pre_src.map_values(f)[mi as int] == pv);
            assert(pre_src.map_values(f).remove(mi as int).to_multiset() =~= pre_src.map_values(
                f,
            ).to_multiset().remove(pv));
            assert(pre_out.map_values(f).push(pv).to_multiset() =~= pre_out.map_values(
                f,
            ).to_multiset().insert(pv));
            assert(pre_src.map_values(f).to_multiset().contains(pv));
            assert(out@.map_values(f).to_multiset().add(src@.map_values(f).to_multiset()) =~= goal);
            assert forall|i: int, j: int| 0 <= i < j < out@.len() implies lex_le(
                #[trigger] out@.map_values(f)[i],
                #[trigger] out@.map_values(f)[j],
            ) by {
                if j == pre_out.len() {
                    assert(out@.map_values(f)[i] == pre_out.map_values(f)[i]);
                    assert(lex_le(pre_out.map_values(f)[i], pre_src.map_values(f)[mi as int]));
                }
            };
            assert forall|i: int, j: int|
                0 <= i < out@.len() && 0 <= j < src@.len() implies lex_le(
                #[trigger] out@.map_values(f)[i],
                #[trigger] src@.map_values(f)[j],
            ) by {
                let sj = if j < mi {
                    j
                } else {
                    j + 1
                };
                assert(src@.map_values(f)[j] == pre_src.map_values(f)[sj]);
                if i < pre_out.len() {
                    assert(lex_le(pre_out.map_values(f)[i], pre_src.map_values(f)[sj]));
                } else {
                    assert(lex_le(pv, pre_src.map_values(f)[sj]));
                }
            };
        }
    }
    proof {
        assert forall|i: int, j: int| 0 <= i < j < out@.len() implies lex_le(
            (#[trigger] out@[i])@,
            (#[trigger] out@[j])@,
        ) by {
            assert(out@.map_values(f)[i] == out@[i]@);
            assert(out@.map_values(f)[j] == out@[j]@);
        };
    }
    out
}

/// Selection sort of messages by date, oldest first. The result is a
/// permutation of the input.
fn sort_messages_by_date_asc(input: Vec<Message>) -> (r: Vec<Message>)
    ensures
        r@.map_values(|m: Message| m@).to_multiset() == input@.map_values(|m: Message| m@)
            .to_multiset(),
        sorted_by_date_asc(r@.map_values(|m: Message| m@)),
{
    broadcast use vstd::seq_lib::group_to_multiset_ensures;

    let ghost f = |m: Message| m@;
    let ghost goal = input@.map_values(f).to_multiset();
    let mut src = input;
    let mut out: Vec<Message> = Vec::new();
    while src.len() > 0
        invariant
            goal == input@.map_values(f).to_multiset(),
            f == (|m: Message| m@),
            out@.map_values(f).to_multiset().add(src@.map_values(f).to_multiset()) == goal,
            sorted_by_date_asc(out@.map_values(f)),
            forall|i: int, j: int|
                0 <= i < out@.len() && 0 <= j < src@.len() ==> (#[trigger] out@.map_values(f)[
                    i
                ]).date <= (#[trigger] src@.map_values(f)[j]).date,
        decreases src@.len(),
    {
        let n = src.len();
        let mut mi: usize = 0;
        let mut k: usize = 1;
        while k < n
            invariant
                n == src@.len(),
                0 < n,
                mi < k,
                k <= n,
                forall|t: int| 0 <= t < k ==> src@[mi as int]@.date <= (#[trigger] src@[t]@).date,
            decreases n - k,
        {
            if src[k].date < src[mi].date {
                mi = k;
            }
            k = k + 1;
        }
        let ghost pre_src = src@;
        let ghost pre_out = out@;
        let picked = src.remove(mi);
        out.push(picked);
        proof {
            broadcast use vstd::seq_lib::group_to_multiset_ensures;

            let pv = picked@;
            assert(src@ =~= pre_src.remove(mi as int));
            assert(src@.map_values(f) =~= pre_src.map_values(f).remove(mi as int));
            assert(out@.map_values(f) =~= pre_out.map_values(f).push(pv));
            assert(pre_src.map_values(f)[mi as int] == pv);
            assert(pre_src.map_values(f).remove(mi as int).to_multiset() =~= pre_src.map_values(
                f,
            ).to_multiset().remove(pv));
            assert(pre_out.map_values(f).push(pv).to_multiset() =~= pre_out.map_values(
                f,
            ).to_multiset().insert(pv));
            assert(pre_src.map_values(f).to_multiset().contains(pv));
            assert(out@.map_values(f).to_multiset().add(src@.map_values(f).to_multiset()) =~= goal);
            assert forall|i: int, j: int| 0 <= i < j < out@.len() implies (
            #[trigger] out@.map_values(f)[i]).date <= (#[trigger] out@.map_values(f)[j]).date by {
                if j == pre_out.len() {
                    assert(out@.map_values(f)[i] == pre_out.map_values(f)[i]);
                    assert(pre_out.map_values(f)[i].date <= pre_src.map_values(f)[
                        mi as int
                    ].date);
                }
            };
            assert forall|i: int, j: int|
                0 <= i < out@.len() && 0 <= j < src@.len() implies (#[trigger] out@.map_values(f)[
                i
            ]).date <= (#[trigger] src@.map_values(f)[j]).date by {
                if i < pre_out.len() {
                } else {
                    if j < mi {
                        assert(src@.map_values(f)[j] == pre_src.map_values(f)[j]);
                    } else {
                        assert(src@.map_values(f)[j] == pre_src.map_values(f)[j + 1]);
                    }
                }
            };
        }
    }
    out
}

// ─── the store ───────────────────────────────────────────────────────────────

impl Store {
    /// The stored message rows as mathematical values, in storage order.
    pub closed spec fn rows_view(&self) -> Seq<MessageView> {
        self.rows@.map_values(|m: Message| m@)
    }

    /// The blacklist as a set.
    pub closed spec fn blacklist_set(&self) -> Set<int> {
        self.blacklist@.map_values(|x: i64| x as int).to_set()
    }

    /// The target set.
    pub closed spec fn targets_set(&self) -> Set<int> {
        self.targets@.map_values(|x: i64| x as int).to_set()
    }

    /// Whether the registry holds a row for the peer.
    pub closed spec fn registry_has(&self, p: int) -> bool {
        exists|i: int| 0 <= i < self.registry@.len() && (#[trigger] self.registry@[i]).peer_id == p
    }

    /// Index of the registry row of a peer.
    pub closed spec fn registry_index(&self, p: int) -> int {
        choose|i: int| 0 <= i < self.registry@.len() && (#[trigger] self.registry@[i]).peer_id == p
    }

    /// The entity registry as a map from peer id to its row.
    pub closed spec fn registry_map(&self) -> Map<int, EntityRecordView> {
        Map::new(|p: int| self.registry_has(p), |p: int| self.registry@[self.registry_index(p)]@)
    }

    /// The analysis log rows as mathematical values, in storage order.
    pub closed spec fn analysis_view(&self) -> Seq<AnalysisResultView> {
        self.analysis_log@.map_values(|a: AnalysisResult| a@)
    }

    /// The set of analyzed week keys of a chat.
    pub closed spec fn analyzed_set(&self, chat: int) -> Set<Seq<char>> {
        Set::new(
            |w: Seq<char>|
                exists|i: int|
                    0 <= i < self.analysis_view().len() && (#[trigger] self.analysis_view()[
                        i
                    ]).chat_id == chat && self.analysis_view()[i].week_group == w,
        )
    }

    /// Index of the analysis row of `(chat, week)`.
    pub closed spec fn analysis_index(&self, chat: int, w: Seq<char>) -> int {
        choose|i: int|
            0 <= i < self.analysis_view().len() && (#[trigger] self.analysis_view()[i]).chat_id
                == chat && self.analysis_view()[i].week_group == w
    }

    /// The stored analysis of an analyzed `(chat, week)`.
    pub closed spec fn analysis_entry_view(&self, chat: int, w: Seq<char>) -> AnalysisResultView {
        self.analysis_view()[self.analysis_index(chat, w)]
    }

    /// Well-formedness: every table is keyed uniquely.
    pub closed spec fn wf(&self) -> bool {
        &&& rows_unique(self.rows_view())
        &&& self.blacklist@.no_duplicates()
        &&& self.targets@.no_duplicates()
        &&& forall|i: int, j: int|
            0 <= i < j < self.registry@.len() ==> (#[trigger] self.registry@[i]).peer_id != (
            #[trigger] self.registry@[j]).peer_id
        &&& forall|i: int, j: int|
            0 <= i < j < self.analysis_log@.len() ==> !((#[trigger] self.analysis_log@[i]).chat_id
                == (#[trigger] self.analysis_log@[j]).chat_id && self.analysis_log@[i].week_group@
                == self.analysis_log@[j].week_group@)
    }

    /// A well-formed store keys its message rows uniquely: callers may
    /// combine this with [`lemma_at_most_once`] to conclude that however many
    /// times a `(chat_id, id)` key was saved, exactly one row stands for it.
    pub proof fn lemma_wf_rows_unique(&self)
        requires
            self.wf(),
        ensures
            rows_unique(self.rows_view()),
    {
    }

    /// An empty store.
    pub fn new() -> (r: Store)
        ensures
            r.wf(),
            r.rows_view() =~= Seq::<MessageView>::empty(),
            r.blacklist_set() =~= Set::<int>::empty(),
            r.targets_set() =~= Set::<int>::empty(),
            r.registry_map() =~= Map::<int, EntityRecordView>::empty(),
            forall|c: int| #[trigger] r.analyzed_set(c) =~= Set::<Seq<char>>::empty(),
    {
        let r = Store {
            rows: Vec::new(),
            blacklist: Vec::new(),
            targets: Vec::new(),
            registry: Vec::new(),
            analysis_log: Vec::new(),
        };
        proof {
            assert(r.registry_map() =~= Map::<int, EntityRecordView>::empty());
            assert forall|c: int| #[trigger] r.analyzed_set(c) =~= Set::<Seq<char>>::empty() by {
                assert(forall|w: Seq<char>| !r.analyzed_set(c).contains(w));
            };
        }
        r
    }

    /// Whether a row with the key `(chat_id, id)` is stored.
    pub fn has_row(&self, chat_id: i64, id: i32) -> (r: bool)
        ensures
            r == spec_has_row(self.rows_view(), chat_id as int, id as int),
    {
        let n = self.rows.len();
        let mut i: usize = 0;
        while i < n
            invariant
                i <= n,
                n == self.rows@.len(),
                forall|k: int|
                    0 <= k < i ==> !((#[trigger] self.rows_view()[k]).chat_id == chat_id as int
                        && self.rows_view()[k].id == id as int),
            decreases n - i,
        {
            let m = &self.rows[i];
            if m.chat_id == chat_id && m.id == id {
                proof {
                    assert(self.rows_view()[i as int].chat_id == chat_id as int);
                }
                return true;
            }
            i = i + 1;
        }
        false
    }

    /// Saves a batch of messages for one chat. Every row is keyed under
    /// `chat_id`; keys already stored are left untouched. An empty batch is a
    /// no-op. The in-memory store cannot fail.
    #[verifier::rlimit(100)]
    pub fn save_messages(&mut self, chat_id: i64, messages: &Vec<Message>) -> (r: Result<
        (),
        DomainError,
    >)
        requires
            old(self).wf(),
        ensures
            final(self).wf(),
            final(self).blacklist_set() == old(self).blacklist_set(),
            final(self).targets_set() == old(self).targets_set(),
            final(self).registry_map() == old(self).registry_map(),
            final(self).analysis_view() == old(self).analysis_view(),
            r is Ok,
            save_messages_post(
                old(self).rows_view(),
                final(self).rows_view(),
                chat_id as int,
                messages@.map_values(|m: Message| m@),
            ),
    {
        let ghost pre = self.rows_view();
        let ghost batch = messages@.map_values(|m: Message| m@);
        let n = messages.len();
        let mut k: usize = 0;
        proof {
            assert(batch.take(0) =~= Seq::<MessageView>::empty());
        }
        while k < n
            invariant
                k <= n,
                n == messages@.len(),
                batch == messages@.map_values(|m: Message| m@),
                self.wf(),
                self.blacklist@ == old(self).blacklist@,
                self.targets@ == old(self).targets@,
                self.registry@ == old(self).registry@,
                self.analysis_log@ == old(self).analysis_log@,
                pre == old(self).rows_view(),
                forall|c: int, id: int|
                    #[trigger] spec_has_row(self.rows_view(), c, id) <==> spec_has_row(pre, c, id)
                        || (c == chat_id as int && batch_has_id(batch.take(k as int), id)),
                forall|c: int, id: int|
                    spec_has_row(pre, c, id) ==> #[trigger] spec_row(self.rows_view(), c, id)
                        == spec_row(pre, c, id),
                forall|i: int|
                    0 <= i < k && !spec_has_row(pre, chat_id as int, (#[trigger] batch[i]).id) && (
                    forall|j: int| 0 <= j < i ==> batch[j].id != batch[i].id) ==> spec_row(
                        self.rows_view(),
                        chat_id as int,
                        batch[i].id,
                    ) == with_chat(batch[i], chat_id as int),
            decreases n - k,
        {
            let m = &messages[k];
            let ghost cint = chat_id as int;
            let ghost cur = self.rows_view();
            let ghost wc = with_chat(batch[k as int], cint);
            proof {
                lemma_batch_take_extend(batch, k as int);
            }
            let present = self.has_row(chat_id, m.id);
            if !present {
                let mut copy = m.duplicate();
                copy.chat_id = chat_id;
                proof {
                    assert(copy@ =~= wc);
                    lemma_rows_push(cur, wc);
                }
                self.rows.push(copy);
                proof {
                    assert(self.rows_view() =~= cur.push(wc));
                }
            }
            proof {
                let cur2 = self.rows_view();
                assert forall|i: int|
                    0 <= i < k + 1 && !spec_has_row(pre, cint, (#[trigger] batch[i]).id) && (forall|
                        j: int,
                    | 0 <= j < i ==> batch[j].id != batch[i].id) implies spec_row(
                    cur2,
                    cint,
                    batch[i].id,
                ) == with_chat(batch[i], cint) by {
                    if i < k {
                        assert(batch.take(k as int)[i] == batch[i]);
                        assert(batch_has_id(batch.take(k as int), batch[i].id));
                        assert(spec_has_row(cur, cint, batch[i].id));
                    } else {
                        if present {
                            let id = batch[k as int].id;
                            assert(batch_has_id(batch.take(k as int), id));
                            let j = choose|j: int|
                                0 <= j < batch.take(k as int).len() && (#[trigger] batch.take(
                                    k as int,
                                )[j]).id == id;
                            assert(batch[j].id == id);
                            assert(false);
                        }
                    }
                };
            }
            k = k + 1;
        }
        proof {
            assert(batch.take(n as int) =~= batch);
        }
        Ok(())
    }

    /// Reads up to `limit` rows of the chat, newest first, skipping `offset`
    /// rows. Rows with equal dates come in an unspecified order, as a paged
    /// date-ordered query leaves ties open.
    pub fn get_messages(&self, chat_id: i64, limit: u32, offset: u32) -> (r: Result<
        Vec<Message>,
        DomainError,
    >)
        requires
            self.wf(),
        ensures
            r is Ok,
            r matches Ok(v) ==> get_messages_post(
                self.rows_view(),
                v@.map_values(|m: Message| m@),
                chat_id as int,
                limit as int,
                offset as int,
            ),
    {
        let ghost f = |m: Message| m@;
        let ghost cint = chat_id as int;
        let ghost p = |m: MessageView| m.chat_id == cint;
        let mut all: Vec<Message> = Vec::new();
        let n = self.rows.len();
        let mut i: usize = 0;
        proof {
            assert(self.rows_view().take(0).filter(p) =~= Seq::<MessageView>::empty());
            assert(all@.map_values(f) =~= Seq::<MessageView>::empty());
        }
        while i < n
            invariant
                self.wf(),
                i <= n,
                n == self.rows@.len(),
                cint == chat_id as int,
                p == (|m: MessageView| m.chat_id == cint),
                f == (|m: Message| m@),
                all@.map_values(f) == self.rows_view().take(i as int).filter(p),
            decreases n - i,
        {
            proof {
                lemma_filter_take_extend(self.rows_view(), p, i as int);
            }
            let m = &self.rows[i];
            if m.chat_id == chat_id {
                all.push(m.duplicate());
                proof {
                    assert(all@.map_values(f) =~= self.rows_view().take(i + 1).filter(p));
                }
            }
            i = i + 1;
        }
        proof {
            assert(self.rows_view().take(n as int) =~= self.rows_view());
        }
        let sorted = sort_messages_by_date_desc(all);
        let ghost allv = sorted@.map_values(f);
        let len = sorted.len();
        let start: usize = if (offset as usize) < len {
            offset as usize
        } else {
            len
        };
        let avail: usize = len - start;
        let take_n: usize = if (limit as usize) < avail {
            limit as usize
        } else {
            avail
        };
        let mut out: Vec<Message> = Vec::new();
        let mut j: usize = 0;
        proof {
            assert(out@.map_values(f) =~= allv.subrange(start as int, start as int));
        }
        while j < take_n
            invariant
                j <= take_n,
                start + take_n <= len,
                len == sorted@.len(),
                allv == sorted@.map_values(f),
                f == (|m: Message| m@),
                out@.map_values(f) == allv.subrange(start as int, start + j),
            decreases take_n - j,
        {
            let elem = sorted[start + j].duplicate();
            let ghost ev = elem@;
            let ghost pre_out = out@;
            out.push(elem);
            proof {
                assert(out@.map_values(f) =~= pre_out.map_values(f).push(ev));
                assert(ev == allv[start + j]);
                assert(out@.map_values(f) =~= allv.subrange(start as int, start + j + 1));
            }
            j = j + 1;
        }
        proof {
            let outv = out@.map_values(f);
            assert(allv.to_multiset() == self.rows_view().filter(p).to_multiset());
            assert(vstd::math::min(offset as int, allv.len() as int) == start as int);
            assert(vstd::math::min(offset as int + limit as int, allv.len() as int) == start
                + take_n);
            assert(outv == allv.subrange(
                vstd::math::min(offset as int, allv.len() as int),
                vstd::math::min(offset as int + limit as int, allv.len() as int),
            ));
            assert(get_messages_post(self.rows_view(), outv, cint, limit as int, offset as int));
        }
        Ok(out)
    }

    fn contains_id(v: &Vec<i64>, x: i64) -> (r: bool)
        ensures
            r == v@.contains(x),
    {
        let n = v.len();
        let mut i: usize = 0;
        while i < n
            invariant
                i <= n,
                n == v@.len(),
                forall|k: int| 0 <= k < i ==> v@[k] != x,
            decreases n - i,
        {
            if v[i] == x {
                return true;
            }
            i = i + 1;
        }
        false
    }

    fn dedup_ids(ids: &Vec<i64>) -> (r: Vec<i64>)
        ensures
            r@.no_duplicates(),
            r@.map_values(|x: i64| x as int).to_set() == ids@.map_values(|x: i64| x as int)
                .to_set(),
    {
        let n = ids.len();
        let mut out: Vec<i64> = Vec::new();
        let mut i: usize = 0;
        while i < n
            invariant
                i <= n,
                n == ids@.len(),
                out@.no_duplicates(),
                out@.map_values(|x: i64| x as int).to_set() =~= ids@.take(i as int).map_values(
                    |x: i64| x as int,
                ).to_set(),
            decreases n - i,
        {
            let ghost pre_out = out@;
            let x = ids[i];
            let absent = !Store::contains_id(&out, x);
            if absent {
                out.push(x);
            }
            proof {
                let f = |v: i64| v as int;
                assert(ids@.take(i + 1) =~= ids@.take(i as int).push(x));
                lemma_push_to_set_int(ids@.take(i as int), x);
                if absent {
                    assert(out@ =~= pre_out.push(x));
                    lemma_push_to_set_int(pre_out, x);
                } else {
                    lemma_contains_to_set_int(pre_out, x);
                    assert(pre_out.map_values(f).to_set().insert(x as int) =~= pre_out.map_values(
                        f,
                    ).to_set());
                }
                assert(out@.map_values(f).to_set() =~= ids@.take(i + 1).map_values(f).to_set());
            }
            i = i + 1;
        }
        proof {
            assert(ids@.take(n as int) =~= ids@);
        }
        out
    }

    /// The chats excluded from full backup.
    pub fn get_blacklisted_ids(&self) -> (r: Result<Vec<i64>, DomainError>)
        requires
            self.wf(),
        ensures
            r is Ok,
            r matches Ok(v) ==> v@.map_values(|x: i64| x as int).to_set() == self.blacklist_set()
                && v@.no_duplicates(),
    {
        let mut out: Vec<i64> = Vec::new();
        let n = self.blacklist.len();
        let mut i: usize = 0;
        while i < n
            invariant
                i <= n,
                n == self.blacklist@.len(),
                out@ == self.blacklist@.take(i as int),
            decreases n - i,
        {
            out.push(self.blacklist[i]);
            proof {
                assert(out@ =~= self.blacklist@.take(i + 1));
            }
            i = i + 1;
        }
        proof {
            assert(self.blacklist@.take(n as int) =~= self.blacklist@);
        }
        Ok(out)
    }

    /// Replaces the blacklist with the given chat ids.
    pub fn update_blacklist(&mut self, ids: Vec<i64>) -> (r: Result<(), DomainError>)
        requires
            old(self).wf(),
        ensures
            final(self).wf(),
            final(self).rows_view() == old(self).rows_view(),
            final(self).targets_set() == old(self).targets_set(),
            final(self).registry_map() == old(self).registry_map(),
            final(self).analysis_view() == old(self).analysis_view(),
            r is Ok,
            final(self).blacklist_set() == ids@.map_values(|x: i64| x as int).to_set(),
    {
        self.blacklist = Store::dedup_ids(&ids);
        Ok(())
    }

    /// The chats watched by the watcher.
    pub fn get_target_ids(&self) -> (r: Result<Vec<i64>, DomainError>)
        requires
            self.wf(),
        ensures
            r is Ok,
            r matches Ok(v) ==> v@.map_values(|x: i64| x as int).to_set() == self.targets_set()
                && v@.no_duplicates(),
    {
        let mut out: Vec<i64> = Vec::new();
        let n = self.targets.len();
        let mut i: usize = 0;
        while i < n
            invariant
                i <= n,
                n == self.targets@.len(),
                out@ == self.targets@.take(i as int),
            decreases n - i,
        {
            out.push(self.targets[i]);
            proof {
                assert(out@ =~= self.targets@.take(i + 1));
            }
            i = i + 1;
        }
        proof {
            assert(self.targets@.take(n as int) =~= self.targets@);
        }
        Ok(out)
    }

    /// Any registry index whose row matches the peer gives the map entry.
    proof fn lemma_registry_at(&self, i: int)
        requires
            self.wf(),
            0 <= i < self.registry@.len(),
        ensures
            self.registry_has(self.registry@[i].peer_id as int),
            self.registry_map().dom().contains(self.registry@[i].peer_id as int),
            self.registry_map()[self.registry@[i].peer_id as int] == self.registry@[i]@,
    {
        let p = self.registry@[i].peer_id as int;
        assert(self.registry_has(p));
        let j = self.registry_index(p);
        assert(0 <= j < self.registry@.len() && self.registry@[j].peer_id == p);
        if i != j {
            assert(false);
        }
    }

    /// The cached access hash of a peer.
    pub fn get_access_hash(&self, peer_id: i64) -> (r: Result<Option<i64>, DomainError>)
        requires
            self.wf(),
        ensures
            r is Ok,
            r matches Ok(Some(h)) ==> self.registry_map().dom().contains(peer_id as int)
                && h as int == self.registry_map()[peer_id as int].access_hash,
            r matches Ok(None) ==> !self.registry_map().dom().contains(peer_id as int),
    {
        let n = self.registry.len();
        let mut i: usize = 0;
        while i < n
            invariant
                self.wf(),
                i <= n,
                n == self.registry@.len(),
                forall|k: int| 0 <= k < i ==> (#[trigger] self.registry@[k]).peer_id != peer_id,
            decreases n - i,
        {
            if self.registry[i].peer_id == peer_id {
                proof {
                    self.lemma_registry_at(i as int);
                }
                return Ok(Some(self.registry[i].access_hash));
            }
            i = i + 1;
        }
        proof {
            if self.registry_has(peer_id as int) {
                let k = choose|k: int|
                    0 <= k < self.registry@.len() && (#[trigger] self.registry@[k]).peer_id
                        == peer_id;
                assert(false);
            }
        }
        Ok(None)
    }

    /// Inserts or replaces the registry row of a peer, stamped with the
    /// current clock reading.
    pub fn save_entity(
        &mut self,
        peer_id: i64,
        access_hash: i64,
        peer_type: &str,
        username: Option<&str>,
    ) -> (r: Result<(), DomainError>)
        requires
            old(self).wf(),
        ensures
            final(self).wf(),
            final(self).rows_view() == old(self).rows_view(),
            final(self).blacklist_set() == old(self).blacklist_set(),
            final(self).targets_set() == old(self).targets_set(),
            final(self).analysis_view() == old(self).analysis_view(),
            r is Ok,
            final(self).registry_map().dom() == old(self).registry_map().dom().insert(
                peer_id as int,
            ),
            final(self).registry_map()[peer_id as int].access_hash == access_hash as int,
            final(self).registry_map()[peer_id as int].peer_kind == peer_type@,
            final(self).registry_map()[peer_id as int].username == (match username {
                Some(u) => Some(u@),
                None => None,
            }),
            forall|p: int|
                p != peer_id as int && old(self).registry_map().dom().contains(p)
                    ==> #[trigger] final(self).registry_map()[p] == old(self).registry_map()[p],
    {
        let now = crate::timefmt::unix_now();
        let uname: Option<String> = match username {
            Some(u) => Some(u.to_owned()),
            None => None,
        };
        let rec = EntityRecord {
            peer_id,
            access_hash,
            peer_kind: peer_type.to_owned(),
            username: uname,
            updated_at: now,
        };
        let n = self.registry.len();
        let mut i: usize = 0;
        while i < n
            invariant
                *self == *old(self),
                self.wf(),
                i <= n,
                n == self.registry@.len(),
                rec.peer_id == peer_id,
                rec@.access_hash == access_hash as int,
                rec@.peer_kind == peer_type@,
                rec@.username == (match username {
                    Some(u) => Some(u@),
                    None => None,
                }),
                forall|k: int| 0 <= k < i ==> (#[trigger] self.registry@[k]).peer_id != peer_id,
            decreases n - i,
        {
            if self.registry[i].peer_id == peer_id {
                let ghost pre = *self;
                let ghost grec = rec;
                self.registry[i] = rec;
                proof {
                    assert(self.registry@ =~= pre.registry@.update(i as int, grec));
                    self.lemma_update_entity_post(pre, i as int, peer_id as int);
                }
                return Ok(());
            }
            i = i + 1;
        }
        let ghost pre = *self;
        proof {
            if pre.registry_has(peer_id as int) {
                let k = choose|k: int|
                    0 <= k < pre.registry@.len() && (#[trigger] pre.registry@[k]).peer_id
                        == peer_id;
                assert(false);
            }
        }
        self.registry.push(rec);
        proof {
            self.lemma_push_entity_post(pre, peer_id as int);
        }
        Ok(())
    }

    /// After replacing the row at a matching index, the registry map is the
    /// old map with that peer overwritten.
    proof fn lemma_update_entity_post(&self, pre: Store, i: int, p: int)
        requires
            pre.wf(),
            0 <= i < pre.registry@.len(),
            pre.registry@[i].peer_id == p,
            self.registry@ == pre.registry@.update(i, self.registry@[i]),
            self.registry@[i].peer_id == p,
            self.rows@ == pre.rows@,
            self.blacklist@ == pre.blacklist@,
            self.targets@ == pre.targets@,
            self.analysis_log@ == pre.analysis_log@,
        ensures
            self.wf(),
            self.registry_map().dom() == pre.registry_map().dom().insert(p),
            self.registry_map()[p] == self.registry@[i]@,
            forall|q: int|
                q != p && pre.registry_map().dom().contains(q) ==> #[trigger] self.registry_map()[q]
                    == pre.registry_map()[q],
    {
        assert forall|a: int, b: int| 0 <= a < b < self.registry@.len() implies (
        #[trigger] self.registry@[a]).peer_id != (#[trigger] self.registry@[b]).peer_id by {
            assert(pre.registry@[a].peer_id != pre.registry@[b].peer_id);
        };
        assert(self.wf());
        self.lemma_registry_at(i);
        pre.lemma_registry_at(i);
        assert forall|q: int| #[trigger] self.registry_map().dom().contains(q) implies
            pre.registry_map().dom().contains(q) by {
            let k = choose|k: int|
                0 <= k < self.registry@.len() && (#[trigger] self.registry@[k]).peer_id == q;
            assert(pre.registry@[if k == i { i } else { k }].peer_id == q);
        };
        assert forall|q: int| #[trigger] pre.registry_map().dom().contains(q) implies
            self.registry_map().dom().contains(q) by {
            let k = choose|k: int|
                0 <= k < pre.registry@.len() && (#[trigger] pre.registry@[k]).peer_id == q;
            assert(self.registry@[k].peer_id == q);
        };
        assert(self.registry_map().dom() =~= pre.registry_map().dom().insert(p));
        assert forall|q: int|
            q != p && pre.registry_map().dom().contains(q) implies #[trigger] self.registry_map()[q]
            == pre.registry_map()[q] by {
            let k = choose|k: int|
                0 <= k < pre.registry@.len() && (#[trigger] pre.registry@[k]).peer_id == q;
            assert(k != i);
            assert(self.registry@[k].peer_id == q);
            self.lemma_registry_at(k);
            pre.lemma_registry_at(k);
        };
    }

    /// After appending a row for a fresh peer, the registry map is the old
    /// map extended with that peer.
    proof fn lemma_push_entity_post(&self, pre: Store, p: int)
        requires
            pre.wf(),
            !pre.registry_has(p),
            self.registry@.len() == pre.registry@.len() + 1,
            self.registry@ == pre.registry@.push(self.registry@[pre.registry@.len() as int]),
            self.registry@[pre.registry@.len() as int].peer_id == p,
            self.rows@ == pre.rows@,
            self.blacklist@ == pre.blacklist@,
            self.targets@ == pre.targets@,
            self.analysis_log@ == pre.analysis_log@,
        ensures
            self.wf(),
            self.registry_map().dom() == pre.registry_map().dom().insert(p),
            self.registry_map()[p] == self.registry@[pre.registry@.len() as int]@,
            forall|q: int|
                q != p && pre.registry_map().dom().contains(q) ==> #[trigger] self.registry_map()[q]
                    == pre.registry_map()[q],
    {
        let last = pre.registry@.len() as int;
        assert forall|a: int, b: int| 0 <= a < b < self.registry@.len() implies (
        #[trigger] self.registry@[a]).peer_id != (#[trigger] self.registry@[b]).peer_id by {
            if b == last {
                if self.registry@[a].peer_id == p {
                    assert(pre.registry_has(p));
                }
            } else {
                assert(pre.registry@[a].peer_id != pre.registry@[b].peer_id);
            }
        };
        assert(self.wf());
        self.lemma_registry_at(last);
        assert forall|q: int| #[trigger] self.registry_map().dom().contains(q) implies
            pre.registry_map().dom().contains(q) || q == p by {
            let k = choose|k: int|
                0 <= k < self.registry@.len() && (#[trigger] self.registry@[k]).peer_id == q;
            if k < last {
                assert(pre.registry@[k].peer_id == q);
            }
        };
        assert forall|q: int| #[trigger] pre.registry_map().dom().contains(q) implies
            self.registry_map().dom().contains(q) by {
            let k = choose|k: int|
                0 <= k < pre.registry@.len() && (#[trigger] pre.registry@[k]).peer_id == q;
            assert(self.registry@[k].peer_id == q);
        };
        assert(self.registry_map().dom() =~= pre.registry_map().dom().insert(p));
        assert forall|q: int|
            q != p && pre.registry_map().dom().contains(q) implies #[trigger] self.registry_map()[q]
            == pre.registry_map()[q] by {
            let k = choose|k: int|
                0 <= k < pre.registry@.len() && (#[trigger] pre.registry@[k]).peer_id == q;
            assert(self.registry@[k].peer_id == q);
            self.lemma_registry_at(k);
            pre.lemma_registry_at(k);
        };
    }

    /// Any log index whose row matches `(chat, week)` gives the entry.
    proof fn lemma_analysis_at(&self, i: int)
        requires
            self.wf(),
            0 <= i < self.analysis_log@.len(),
        ensures
            self.analyzed_set(self.analysis_view()[i].chat_id).contains(
                self.analysis_view()[i].week_group,
            ),
            self.analysis_entry_view(
                self.analysis_view()[i].chat_id,
                self.analysis_view()[i].week_group,
            ) == self.analysis_view()[i],
    {
        let c = self.analysis_view()[i].chat_id;
        let w = self.analysis_view()[i].week_group;
        assert(self.analyzed_set(c).contains(w));
        let j = self.analysis_index(c, w);
        assert(0 <= j < self.analysis_view().len() && self.analysis_view()[j].chat_id == c
            && self.analysis_view()[j].week_group == w);
        if i != j {
            assert(false);
        }
    }

    /// Upserts the analysis of one week of one chat.
    pub fn save_analysis(&mut self, result: &AnalysisResult) -> (r: Result<(), DomainError>)
        requires
            old(self).wf(),
        ensures
            final(self).wf(),
            final(self).rows_view() == old(self).rows_view(),
            final(self).blacklist_set() == old(self).blacklist_set(),
            final(self).targets_set() == old(self).targets_set(),
            final(self).registry_map() == old(self).registry_map(),
            r is Ok,
            forall|c: int|
                c != result.chat_id as int ==> #[trigger] final(self).analyzed_set(c) == old(
                    self,
                ).analyzed_set(c),
            final(self).analyzed_set(result.chat_id as int) == old(self).analyzed_set(
                result.chat_id as int,
            ).insert(result.week_group@),
            final(self).analysis_entry_view(result.chat_id as int, result.week_group@)
                == result@,
            forall|c: int, w: Seq<char>|
                old(self).analyzed_set(c).contains(w) && !(c == result.chat_id as int && w
                    == result.week_group@) ==> #[trigger] final(self).analysis_entry_view(c, w)
                    == old(self).analysis_entry_view(c, w),
    {
        let rec = result.duplicate();
        let n = self.analysis_log.len();
        let mut i: usize = 0;
        while i < n
            invariant
                *self == *old(self),
                self.wf(),
                i <= n,
                n == self.analysis_log@.len(),
                rec@ == result@,
                forall|k: int|
                    0 <= k < i ==> !((#[trigger] self.analysis_view()[k]).chat_id
                        == result.chat_id as int && self.analysis_view()[k].week_group
                        == result.week_group@),
            decreases n - i,
        {
            let e = &self.analysis_log[i];
            if e.chat_id == result.chat_id && e.week_group == result.week_group {
                let ghost pre = *self;
                let ghost grec = rec;
                self.analysis_log[i] = rec;
                proof {
                    assert(self.analysis_log@ =~= pre.analysis_log@.update(i as int, grec));
                    self.lemma_upsert_analysis_post(
                        pre,
                        i as int,
                        result.chat_id as int,
                        result.week_group@,
                    );
                }
                return Ok(());
            }
            i = i + 1;
        }
        let ghost pre = *self;
        proof {
            if pre.analyzed_set(result.chat_id as int).contains(result.week_group@) {
                let k = choose|k: int|
                    0 <= k < pre.analysis_view().len() && (#[trigger] pre.analysis_view()[
                        k
                    ]).chat_id == result.chat_id as int && pre.analysis_view()[k].week_group
                        == result.week_group@;
                assert(false);
            }
        }
        self.analysis_log.push(rec);
        proof {
            assert(self.analysis_log@ =~= pre.analysis_log@.push(
                self.analysis_log@[pre.analysis_log@.len() as int],
            ));
            self.lemma_append_analysis_post(pre, result.chat_id as int, result.week_group@);
        }
        Ok(())
    }

    /// After replacing the row at a matching index, the analyzed sets gain
    /// exactly that week for that chat.
    proof fn lemma_upsert_analysis_post(&self, pre: Store, i: int, c: int, w: Seq<char>)
        requires
            pre.wf(),
            0 <= i < pre.analysis_log@.len(),
            pre.analysis_view()[i].chat_id == c,
            pre.analysis_view()[i].week_group == w,
            self.analysis_log@ == pre.analysis_log@.update(i, self.analysis_log@[i]),
            self.analysis_view()[i].chat_id == c,
            self.analysis_view()[i].week_group == w,
            self.rows@ == pre.rows@,
            self.blacklist@ == pre.blacklist@,
            self.targets@ == pre.targets@,
            self.registry@ == pre.registry@,
        ensures
            self.wf(),
            forall|q: int| q != c ==> #[trigger] self.analyzed_set(q) == pre.analyzed_set(q),
            self.analyzed_set(c) == pre.analyzed_set(c).insert(w),
            self.analysis_entry_view(c, w) == self.analysis_view()[i],
            forall|q: int, v: Seq<char>|
                pre.analyzed_set(q).contains(v) && !(q == c && v == w)
                    ==> #[trigger] self.analysis_entry_view(q, v) == pre.analysis_entry_view(q, v),
    {
        assert forall|a: int, b: int| 0 <= a < b < self.analysis_view().len() implies !((
        #[trigger] self.analysis_view()[a]).chat_id == (#[trigger] self.analysis_view()[b]).chat_id
            && self.analysis_view()[a].week_group == self.analysis_view()[b].week_group) by {
            if a != i && b != i {
                assert(pre.analysis_view()[a].chat_id == self.analysis_view()[a].chat_id);
            }
        };
        assert forall|a: int, b: int| 0 <= a < b < self.analysis_log@.len() implies !((
        #[trigger] self.analysis_log@[a]).chat_id == (#[trigger] self.analysis_log@[b]).chat_id
            && self.analysis_log@[a].week_group@ == self.analysis_log@[b].week_group@) by {
            assert(self.analysis_view()[a] == self.analysis_log@[a]@);
            assert(self.analysis_view()[b] == self.analysis_log@[b]@);
            assert(!(self.analysis_view()[a].chat_id == self.analysis_view()[b].chat_id
                && self.analysis_view()[a].week_group == self.analysis_view()[b].week_group));
        };
        assert(self.wf());
        self.lemma_analysis_at(i);
        assert forall|q: int| q != c implies #[trigger] self.analyzed_set(q) == pre.analyzed_set(
            q,
        ) by {
            assert forall|v: Seq<char>| #[trigger] self.analyzed_set(q).contains(v) implies
                pre.analyzed_set(q).contains(v) by {
                let k = choose|k: int|
                    0 <= k < self.analysis_view().len() && (#[trigger] self.analysis_view()[
                        k
                    ]).chat_id == q && self.analysis_view()[k].week_group == v;
                assert(pre.analysis_view()[k].chat_id == q && pre.analysis_view()[k].week_group
                    == v);
            };
            assert forall|v: Seq<char>| #[trigger] pre.analyzed_set(q).contains(v) implies
                self.analyzed_set(q).contains(v) by {
                let k = choose|k: int|
                    0 <= k < pre.analysis_view().len() && (#[trigger] pre.analysis_view()[
                        k
                    ]).chat_id == q && pre.analysis_view()[k].week_group == v;
                assert(k != i);
                assert(self.analysis_view()[k].chat_id == q && self.analysis_view()[k].week_group
                    == v);
            };
            assert(self.analyzed_set(q) =~= pre.analyzed_set(q));
        };
        assert forall|v: Seq<char>| #[trigger] self.analyzed_set(c).contains(v) implies
            pre.analyzed_set(c).insert(w).contains(v) by {
            let k = choose|k: int|
                0 <= k < self.analysis_view().len() && (#[trigger] self.analysis_view()[
                    k
                ]).chat_id == c && self.analysis_view()[k].week_group == v;
            if k != i {
                assert(pre.analysis_view()[k].chat_id == c && pre.analysis_view()[k].week_group
                    == v);
            }
        };
        assert forall|v: Seq<char>| pre.analyzed_set(c).insert(w).contains(v) implies #[trigger]
        self.analyzed_set(c).contains(v) by {
            if v == w {
                assert(self.analysis_view()[i].chat_id == c && self.analysis_view()[i].week_group
                    == v);
            } else {
                let k = choose|k: int|
                    0 <= k < pre.analysis_view().len() && (#[trigger] pre.analysis_view()[
                        k
                    ]).chat_id == c && pre.analysis_view()[k].week_group == v;
                assert(k != i);
                assert(self.analysis_view()[k].chat_id == c && self.analysis_view()[k].week_group
                    == v);
            }
        };
        assert(self.analyzed_set(c) =~= pre.analyzed_set(c).insert(w));
        assert forall|q: int, v: Seq<char>|
            pre.analyzed_set(q).contains(v) && !(q == c && v == w) implies #[trigger]
        self.analysis_entry_view(q, v) == pre.analysis_entry_view(q, v) by {
            let k = choose|k: int|
                0 <= k < pre.analysis_view().len() && (#[trigger] pre.analysis_view()[k]).chat_id
                    == q && pre.analysis_view()[k].week_group == v;
            if k == i {
                assert(q == c && v == w);
            }
            assert(self.analysis_view()[k] == pre.analysis_view()[k]);
            self.lemma_analysis_at(k);
            pre.lemma_analysis_at(k);
        };
    }

    /// After appending a row for a fresh `(chat, week)`, the analyzed sets
    /// gain exactly that week for that chat.
    proof fn lemma_append_analysis_post(&self, pre: Store, c: int, w: Seq<char>)
        requires
            pre.wf(),
            !pre.analyzed_set(c).contains(w),
            self.analysis_log@.len() == pre.analysis_log@.len() + 1,
            self.analysis_log@ == pre.analysis_log@.push(
                self.analysis_log@[pre.analysis_log@.len() as int],
            ),
            self.analysis_view()[pre.analysis_log@.len() as int].chat_id == c,
            self.analysis_view()[pre.analysis_log@.len() as int].week_group == w,
            self.rows@ == pre.rows@,
            self.blacklist@ == pre.blacklist@,
            self.targets@ == pre.targets@,
            self.registry@ == pre.registry@,
        ensures
            self.wf(),
            forall|q: int| q != c ==> #[trigger] self.analyzed_set(q) == pre.analyzed_set(q),
            self.analyzed_set(c) == pre.analyzed_set(c).insert(w),
            self.analysis_entry_view(c, w) == self.analysis_view()[
                pre.analysis_log@.len() as int
            ],
            forall|q: int, v: Seq<char>|
                pre.analyzed_set(q).contains(v) && !(q == c && v == w)
                    ==> #[trigger] self.analysis_entry_view(q, v) == pre.analysis_entry_view(q, v),
    {
        let last = pre.analysis_log@.len() as int;
        assert forall|a: int, b: int| 0 <= a < b < self.analysis_view().len() implies !((
        #[trigger] self.analysis_view()[a]).chat_id == (#[trigger] self.analysis_view()[b]).chat_id
            && self.analysis_view()[a].week_group == self.analysis_view()[b].week_group) by {
            if b == last {
                if self.analysis_view()[a].chat_id == c && self.analysis_view()[a].week_group
                    == w {
                    assert(pre.analysis_view()[a].chat_id == c && pre.analysis_view()[
                        a
                    ].week_group == w);
                    assert(pre.analyzed_set(c).contains(w));
                }
            } else {
                assert(pre.analysis_view()[a].chat_id == pre.analysis_view()[a].chat_id);
                assert(!(pre.analysis_view()[a].chat_id == pre.analysis_view()[b].chat_id
                    && pre.analysis_view()[a].week_group == pre.analysis_view()[b].week_group));
            }
        };
        assert forall|a: int, b: int| 0 <= a < b < self.analysis_log@.len() implies !((
        #[trigger] self.analysis_log@[a]).chat_id == (#[trigger] self.analysis_log@[b]).chat_id
            && self.analysis_log@[a].week_group@ == self.analysis_log@[b].week_group@) by {
            assert(self.analysis_view()[a] == self.analysis_log@[a]@);
            assert(self.analysis_view()[b] == self.analysis_log@[b]@);
            assert(!(self.analysis_view()[a].chat_id == self.analysis_view()[b].chat_id
                && self.analysis_view()[a].week_group == self.analysis_view()[b].week_group));
        };
        assert(self.wf());
        self.lemma_analysis_at(last);
        assert forall|q: int| q != c implies #[trigger] self.analyzed_set(q) == pre.analyzed_set(
            q,
        ) by {
            assert forall|v: Seq<char>| #[trigger] self.analyzed_set(q).contains(v) implies
                pre.analyzed_set(q).contains(v) by {
                let k = choose|k: int|
                    0 <= k < self.analysis_view().len() && (#[trigger] self.analysis_view()[
                        k
                    ]).chat_id == q && self.analysis_view()[k].week_group == v;
                assert(k < last);
                assert(pre.analysis_view()[k].chat_id == q && pre.analysis_view()[k].week_group
                    == v);
            };
            assert forall|v: Seq<char>| #[trigger] pre.analyzed_set(q).contains(v) implies
                self.analyzed_set(q).contains(v) by {
                let k = choose|k: int|
                    0 <= k < pre.analysis_view().len() && (#[trigger] pre.analysis_view()[
                        k
                    ]).chat_id == q && pre.analysis_view()[k].week_group == v;
                assert(self.analysis_view()[k].chat_id == q && self.analysis_view()[k].week_group
                    == v);
            };
            assert(self.analyzed_set(q) =~= pre.analyzed_set(q));
        };
        assert forall|v: Seq<char>| #[trigger] self.analyzed_set(c).contains(v) implies
            pre.analyzed_set(c).insert(w).contains(v) by {
            let k = choose|k: int|
                0 <= k < self.analysis_view().len() && (#[trigger] self.analysis_view()[
                    k
                ]).chat_id == c && self.analysis_view()[k].week_group == v;
            if k < last {
                assert(pre.analysis_view()[k].chat_id == c && pre.analysis_view()[k].week_group
                    == v);
            }
        };
        assert forall|v: Seq<char>| pre.analyzed_set(c).insert(w).contains(v) implies #[trigger]
        self.analyzed_set(c).contains(v) by {
            if v == w {
                assert(self.analysis_view()[last].chat_id == c && self.analysis_view()[
                    last
                ].week_group == v);
            } else {
                let k = choose|k: int|
                    0 <= k < pre.analysis_view().len() && (#[trigger] pre.analysis_view()[
                        k
                    ]).chat_id == c && pre.analysis_view()[k].week_group == v;
                assert(self.analysis_view()[k].chat_id == c && self.analysis_view()[k].week_group
                    == v);
            }
        };
        assert(self.analyzed_set(c) =~= pre.analyzed_set(c).insert(w));
        assert forall|q: int, v: Seq<char>|
            pre.analyzed_set(q).contains(v) && !(q == c && v == w) implies #[trigger]
        self.analysis_entry_view(q, v) == pre.analysis_entry_view(q, v) by {
            let k = choose|k: int|
                0 <= k < pre.analysis_view().len() && (#[trigger] pre.analysis_view()[k]).chat_id
                    == q && pre.analysis_view()[k].week_group == v;
            assert(self.analysis_view()[k] == pre.analysis_view()[k]);
            self.lemma_analysis_at(k);
            pre.lemma_analysis_at(k);
        };
    }

    /// Whether the week is already in the analysis log of the chat.
    fn analyzed_contains(&self, chat_id: i64, w: &str) -> (r: bool)
        requires
            self.wf(),
        ensures
            r == self.analyzed_set(chat_id as int).contains(w@),
    {
        let n = self.analysis_log.len();
        let mut i: usize = 0;
        while i < n
            invariant
                self.wf(),
                i <= n,
                n == self.analysis_log@.len(),
                forall|k: int|
                    0 <= k < i ==> !((#[trigger] self.analysis_view()[k]).chat_id == chat_id as int
                        && self.analysis_view()[k].week_group == w@),
            decreases n - i,
        {
            let e = &self.analysis_log[i];
            if e.chat_id == chat_id && crate::textutil::str_eq(e.week_group.as_str(), w) {
                proof {
                    assert(self.analysis_view()[i as int].chat_id == chat_id as int
                        && self.analysis_view()[i as int].week_group == w@);
                }
                return true;
            }
            i = i + 1;
        }
        proof {
            if self.analyzed_set(chat_id as int).contains(w@) {
                let k = choose|k: int|
                    0 <= k < self.analysis_view().len() && (#[trigger] self.analysis_view()[
                        k
                    ]).chat_id == chat_id as int && self.analysis_view()[k].week_group == w@;
                assert(false);
            }
        }
        false
    }

    /// Collects the distinct week keys of the chat's analyzable rows, in
    /// first-seen order; with `only_unanalyzed`, weeks already in the log are
    /// left out.
    fn collect_weeks(&self, chat_id: i64, only_unanalyzed: bool) -> (r: Vec<WeekGroup>)
        requires
            self.wf(),
        ensures
            r@.map_values(|g: WeekGroup| g@).no_duplicates(),
            only_unanalyzed ==> r@.map_values(|g: WeekGroup| g@).to_set() == spec_message_weeks(
                self.rows_view(),
                chat_id as int,
            ).difference(self.analyzed_set(chat_id as int)),
            !only_unanalyzed ==> r@.map_values(|g: WeekGroup| g@).to_set() == spec_message_weeks(
                self.rows_view(),
                chat_id as int,
            ),
    {
        let ghost cint = chat_id as int;
        let ghost f = |g: WeekGroup| g@;
        let mut weeks: Vec<WeekGroup> = Vec::new();
        let n = self.rows.len();
        let mut i: usize = 0;
        proof {
            assert(self.rows_view().take(0) =~= Seq::<MessageView>::empty());
            reveal(Seq::filter);
            assert forall|w: Seq<char>| !spec_message_weeks(self.rows_view().take(0), cint)
                .contains(w) by {
                assert(spec_eligible_rows(self.rows_view().take(0), cint).len() == 0);
            };
            assert(weeks@.map_values(f).to_set() =~= Set::<Seq<char>>::empty());
            assert(spec_message_weeks(self.rows_view().take(0), cint) =~= Set::<
                Seq<char>,
            >::empty());
            assert(spec_message_weeks(self.rows_view().take(0), cint).difference(
                self.analyzed_set(cint),
            ) =~= Set::<Seq<char>>::empty());
        }
        while i < n
            invariant
                self.wf(),
                i <= n,
                n == self.rows@.len(),
                cint == chat_id as int,
                f == (|g: WeekGroup| g@),
                weeks@.map_values(f).no_duplicates(),
                only_unanalyzed ==> weeks@.map_values(f).to_set() == spec_message_weeks(
                    self.rows_view().take(i as int),
                    cint,
                ).difference(self.analyzed_set(cint)),
                !only_unanalyzed ==> weeks@.map_values(f).to_set() == spec_message_weeks(
                    self.rows_view().take(i as int),
                    cint,
                ),
            decreases n - i,
        {
            proof {
                lemma_message_weeks_take_extend(self.rows_view(), cint, i as int);
            }
            let m = &self.rows[i];
            proof {
                assert(self.rows_view()[i as int] == m@);
            }
            if eligible_exec(m, chat_id) {
                let w = crate::timefmt::week_group_of(m.date);
                let ghost wv = w@;
                proof {
                    assert(wv == spec_week_of(self.rows_view()[i as int].date));
                }
                let skip_analyzed = if only_unanalyzed {
                    self.analyzed_contains(chat_id, w.as_str())
                } else {
                    false
                };
                let already = week_in(&weeks, w.as_str());
                let ghost pre_weeks = weeks@;
                if !skip_analyzed && !already {
                    let wg = WeekGroup::new(w);
                    weeks.push(wg);
                    proof {
                        assert(weeks@ =~= pre_weeks.push(weeks@[pre_weeks.len() as int]));
                        lemma_push_week_set(pre_weeks, weeks@[pre_weeks.len() as int]);
                        assert(weeks@[pre_weeks.len() as int]@ == wv);
                        assert(weeks@.map_values(f).to_set() =~= pre_weeks.map_values(f).to_set()
                            .insert(wv));
                        assert forall|a: int, b: int| 0 <= a < b < weeks@.len() implies (
                        #[trigger] weeks@.map_values(f)[a]) != (#[trigger] weeks@.map_values(f)[
                        b]) by {
                            if b == pre_weeks.len() {
                                assert(pre_weeks.map_values(f)[a] == weeks@.map_values(f)[a]);
                                if weeks@.map_values(f)[a] == wv {
                                    assert(pre_weeks.map_values(f).contains(wv));
                                }
                            } else {
                                assert(pre_weeks.map_values(f)[a] != pre_weeks.map_values(f)[b]);
                            }
                        };
                    }
                } else {
                    proof {
                        if already {
                            let k = weeks@.map_values(f).index_of(wv);
                            assert(weeks@.map_values(f).to_set().contains(wv));
                        }
                    }
                }
                proof {
                    if only_unanalyzed {
                        assert(weeks@.map_values(f).to_set() =~= spec_message_weeks(
                            self.rows_view().take(i + 1),
                            cint,
                        ).difference(self.analyzed_set(cint)));
                    } else {
                        assert(weeks@.map_values(f).to_set() =~= spec_message_weeks(
                            self.rows_view().take(i + 1),
                            cint,
                        ));
                    }
                }
            } else {
                proof {
                    assert(!spec_eligible(self.rows_view()[i as int], cint));
                }
            }
            i = i + 1;
        }
        proof {
            assert(self.rows_view().take(n as int) =~= self.rows_view());
        }
        weeks
    }

    /// Weeks with analyzable rows that are not in the analysis log yet,
    /// lexically ascending — chronological for `YYYY-WW` keys.
    pub fn get_unanalyzed_weeks(&self, chat_id: i64) -> (r: Result<Vec<WeekGroup>, DomainError>)
        requires
            self.wf(),
        ensures
            r is Ok,
            r matches Ok(v) ==> v@.map_values(|w: WeekGroup| w@).to_set() == spec_message_weeks(
                self.rows_view(),
                chat_id as int,
            ).difference(self.analyzed_set(chat_id as int)),
            r matches Ok(v) ==> forall|i: int, j: int|
                0 <= i < j < v@.len() ==> lex_le((#[trigger] v@[i])@, (#[trigger] v@[j])@) && v@[
                    i
                ]@ != v@[j]@,
    {
        let collected = self.collect_weeks(chat_id, true);
        let ghost f = |g: WeekGroup| g@;
        let ghost cv = collected@.map_values(f);
        let sorted = sort_weeks_lex(collected);
        proof {
            let sv = sorted@.map_values(f);
            lemma_same_multiset_same_set(sv, cv);
            lemma_same_multiset_no_dup(cv, sv);
            assert forall|i: int, j: int| 0 <= i < j < sorted@.len() implies lex_le(
                (#[trigger] sorted@[i])@,
                (#[trigger] sorted@[j])@,
            ) && sorted@[i]@ != sorted@[j]@ by {
                assert(sv[i] == sorted@[i]@);
                assert(sv[j] == sorted@[j]@);
            };
        }
        Ok(sorted)
    }

    /// The analyzable rows of the chat that fall in the given week, in
    /// storage order.
    fn collect_week_rows(&self, chat_id: i64, w: &str) -> (r: Vec<Message>)
        requires
            self.wf(),
        ensures
            r@.map_values(|m: Message| m@) == spec_chat_week_rows(
                self.rows_view(),
                chat_id as int,
                w@,
            ),
    {
        let ghost cint = chat_id as int;
        let ghost f = |m: Message| m@;
        let mut out: Vec<Message> = Vec::new();
        let n = self.rows.len();
        let mut i: usize = 0;
        proof {
            assert(self.rows_view().take(0) =~= Seq::<MessageView>::empty());
            reveal(Seq::filter);
            assert(out@.map_values(f) =~= spec_chat_week_rows(
                self.rows_view().take(0),
                cint,
                w@,
            ));
        }
        while i < n
            invariant
                self.wf(),
                i <= n,
                n == self.rows@.len(),
                cint == chat_id as int,
                f == (|m: Message| m@),
                out@.map_values(f) == spec_chat_week_rows(self.rows_view().take(i as int), cint, w@),
            decreases n - i,
        {
            proof {
                lemma_chat_week_rows_take_extend(self.rows_view(), cint, w@, i as int);
            }
            let m = &self.rows[i];
            proof {
                assert(self.rows_view()[i as int] == m@);
            }
            if eligible_exec(m, chat_id) {
                let mw = crate::timefmt::week_group_of(m.date);
                if crate::textutil::str_eq(mw.as_str(), w) {
                    out.push(m.duplicate());
                    proof {
                        assert(out@.map_values(f) =~= spec_chat_week_rows(
                            self.rows_view().take(i + 1),
                            cint,
                            w@,
                        ));
                    }
                }
            }
            i = i + 1;
        }
        proof {
            assert(self.rows_view().take(n as int) =~= self.rows_view());
        }
        out
    }

    /// The analyzable rows of the chat, grouped by week: keys strictly
    /// ascending, each group date-ascending and holding exactly its week's
    /// rows.
    pub fn get_messages_by_week(&self, chat_id: i64) -> (r: Result<
        Vec<(WeekGroup, Vec<Message>)>,
        DomainError,
    >)
        requires
            self.wf(),
        ensures
            r is Ok,
            r matches Ok(v) ==> crate::ports::by_week_post(
                spec_eligible_rows(self.rows_view(), chat_id as int),
                v@.map_values(
                    |g: (WeekGroup, Vec<Message>)| (g.0@, g.1@.map_values(|m: Message| m@)),
                ),
            ),
    {
        let ghost cint = chat_id as int;
        let ghost f = |g: WeekGroup| g@;
        let ghost pf = |g: (WeekGroup, Vec<Message>)| (g.0@, g.1@.map_values(|m: Message| m@));
        let ghost eligible = spec_eligible_rows(self.rows_view(), cint);
        let collected = self.collect_weeks(chat_id, false);
        let ghost cv = collected@.map_values(f);
        let weeks = sort_weeks_lex(collected);
        proof {
            let sv = weeks@.map_values(f);
            lemma_same_multiset_same_set(sv, cv);
            lemma_same_multiset_no_dup(cv, sv);
        }
        let mut out: Vec<(WeekGroup, Vec<Message>)> = Vec::new();
        let gn = weeks.len();
        let mut gi: usize = 0;
        while gi < gn
            invariant
                self.wf(),
                gi <= gn,
                gn == weeks@.len(),
                cint == chat_id as int,
                f == (|g: WeekGroup| g@),
                pf == (|g: (WeekGroup, Vec<Message>)| (
                    g.0@,
                    g.1@.map_values(|m: Message| m@),
                )),
                eligible == spec_eligible_rows(self.rows_view(), cint),
                weeks@.map_values(f).to_set() == spec_message_weeks(self.rows_view(), cint),
                weeks@.map_values(f).no_duplicates(),
                forall|i: int, j: int|
                    0 <= i < j < weeks@.len() ==> lex_le(
                        (#[trigger] weeks@[i])@,
                        (#[trigger] weeks@[j])@,
                    ),
                out@.len() == gi,
                forall|k: int| 0 <= k < gi ==> (#[trigger] out@.map_values(pf)[k]).0 == weeks@[k]@,
                forall|k: int|
                    0 <= k < gi ==> (#[trigger] out@.map_values(pf)[k]).1.len() > 0,
                forall|k: int|
                    0 <= k < gi ==> sorted_by_date_asc((#[trigger] out@.map_values(pf)[k]).1),
                forall|k: int|
                    0 <= k < gi ==> (#[trigger] out@.map_values(pf)[k]).1.to_multiset()
                        == spec_week_rows(eligible, weeks@[k]@).to_multiset(),
            decreases gn - gi,
        {
            let w = &weeks[gi];
            let rows_w = self.collect_week_rows(chat_id, w.as_str());
            proof {
                lemma_week_rows_compose(self.rows_view(), cint, w@);
            }
            let sorted_g = sort_messages_by_date_asc(rows_w);
            let ghost pre_out = out@;
            out.push((w.duplicate(), sorted_g));
            proof {
                broadcast use vstd::seq_lib::group_to_multiset_ensures;

                assert(weeks@.map_values(f)[gi as int] == weeks@[gi as int]@);
                assert(weeks@.map_values(f).to_set().contains(weeks@[gi as int]@));
                assert(spec_message_weeks(self.rows_view(), cint).contains(weeks@[gi as int]@));
                let wit = choose|k: int|
                    0 <= k < spec_eligible_rows(self.rows_view(), cint).len()
                        && #[trigger] spec_week_of(
                        spec_eligible_rows(self.rows_view(), cint)[k].date,
                    ) == weeks@[gi as int]@;
                lemma_week_rows_nonempty(eligible, weeks@[gi as int]@, wit);
                assert(spec_week_rows(eligible, weeks@[gi as int]@).len() > 0);
                assert(sorted_g@.map_values(|m: Message| m@).to_multiset() == spec_week_rows(
                    eligible,
                    weeks@[gi as int]@,
                ).to_multiset());
                assert(sorted_g@.map_values(|m: Message| m@).to_multiset().len() == sorted_g@
                    .map_values(|m: Message| m@).len());
                assert(spec_week_rows(eligible, weeks@[gi as int]@).to_multiset().len()
                    == spec_week_rows(eligible, weeks@[gi as int]@).len());
                assert(sorted_g@.map_values(|m: Message| m@).len() > 0);
                assert forall|k: int| 0 <= k < gi + 1 implies (#[trigger] out@.map_values(pf)[
                    k
                ]).0 == weeks@[k]@ && out@.map_values(pf)[k].1.len() > 0 && sorted_by_date_asc(
                    out@.map_values(pf)[k].1,
                ) && out@.map_values(pf)[k].1.to_multiset() == spec_week_rows(
                    eligible,
                    weeks@[k]@,
                ).to_multiset() by {
                    if k < gi {
                        assert(out@.map_values(pf)[k] == pre_out.map_values(pf)[k]);
                    } else {
                        assert(out@.map_values(pf)[k].0 == weeks@[gi as int]@);
                    }
                };
            }
            gi = gi + 1;
        }
        proof {
            assert forall|k: int|
                0 <= k < spec_eligible_rows(self.rows_view(), chat_id as int).len() implies weeks@
                .map_values(f).contains(
                spec_week_of(spec_eligible_rows(self.rows_view(), chat_id as int)[k].date),
            ) by {
                let wk = spec_week_of(spec_eligible_rows(self.rows_view(), cint)[k].date);
                assert(spec_message_weeks(self.rows_view(), cint).contains(wk));
                assert(weeks@.map_values(f).to_set().contains(wk));
            };
            lemma_by_week_post_intro(
                spec_eligible_rows(self.rows_view(), chat_id as int),
                out@.map_values(
                    |g: (WeekGroup, Vec<Message>)| (g.0@, g.1@.map_values(|m: Message| m@)),
                ),
                weeks@.map_values(f),
            );
        }
        Ok(out)
    }

    /// Reads back the stored analysis of a week.
    pub fn get_analysis(&self, chat_id: i64, week_group: &WeekGroup) -> (r: Result<
        Option<AnalysisResult>,
        DomainError,
    >)
        requires
            self.wf(),
        ensures
            r is Ok,
            r matches Ok(Some(a)) ==> self.analyzed_set(chat_id as int).contains(week_group@)
                && a@ == self.analysis_entry_view(chat_id as int, week_group@),
            r matches Ok(None) ==> !self.analyzed_set(chat_id as int).contains(week_group@),
    {
        let n = self.analysis_log.len();
        let mut i: usize = 0;
        while i < n
            invariant
                self.wf(),
                i <= n,
                n == self.analysis_log@.len(),
                forall|k: int|
                    0 <= k < i ==> !((#[trigger] self.analysis_view()[k]).chat_id == chat_id as int
                        && self.analysis_view()[k].week_group == week_group@),
            decreases n - i,
        {
            let e = &self.analysis_log[i];
            if e.chat_id == chat_id && e.week_group == *week_group {
                proof {
                    self.lemma_analysis_at(i as int);
                }
                return Ok(Some(self.analysis_log[i].duplicate()));
            }
            i = i + 1;
        }
        proof {
            if self.analyzed_set(chat_id as int).contains(week_group@) {
                let k = choose|k: int|
                    0 <= k < self.analysis_view().len() && (#[trigger] self.analysis_view()[
                        k
                    ]).chat_id == chat_id as int && self.analysis_view()[k].week_group
                        == week_group@;
                assert(false);
            }
        }
        Ok(None)
    }

    /// Replaces the target set with the given chat ids.
    pub fn update_targets(&mut self, ids: Vec<i64>) -> (r: Result<(), DomainError>)
        requires
            old(self).wf(),
        ensures
            final(self).wf(),
            final(self).rows_view() == old(self).rows_view(),
            final(self).blacklist_set() == old(self).blacklist_set(),
            final(self).registry_map() == old(self).registry_map(),
            final(self).analysis_view() == old(self).analysis_view(),
            r is Ok,
            final(self).targets_set() == ids@.map_values(|x: i64| x as int).to_set(),
    {
        self.targets = Store::dedup_ids(&ids);
        Ok(())
    }
}

impl crate::ports::RepoPort for Store {
    open spec fn repo_inv(&self) -> bool {
        self.wf()
    }

    open spec fn rows(&self) -> Seq<MessageView> {
        self.rows_view()
    }

    open spec fn blacklist_view(&self) -> Set<int> {
        self.blacklist_set()
    }

    open spec fn targets_view(&self) -> Set<int> {
        self.targets_set()
    }

    fn save_messages(&mut self, chat_id: i64, messages: &Vec<Message>) -> (r: Result<
        (),
        DomainError,
    >) {
        self.save_messages(chat_id, messages)
    }

    fn get_messages(&self, chat_id: i64, limit: u32, offset: u32) -> (r: Result<
        Vec<Message>,
        DomainError,
    >) {
        self.get_messages(chat_id, limit, offset)
    }

    fn get_blacklisted_ids(&self) -> (r: Result<Vec<i64>, DomainError>) {
        self.get_blacklisted_ids()
    }

    fn update_blacklist(&mut self, ids: Vec<i64>) -> (r: Result<(), DomainError>) {
        self.update_blacklist(ids)
    }

    fn get_target_ids(&self) -> (r: Result<Vec<i64>, DomainError>) {
        self.get_target_ids()
    }

    fn update_targets(&mut self, ids: Vec<i64>) -> (r: Result<(), DomainError>) {
        self.update_targets(ids)
    }
}

impl crate::ports::EntityRegistry for Store {
    open spec fn registry_inv(&self) -> bool {
        self.wf()
    }

    open spec fn registry(&self) -> Map<int, EntityRecordView> {
        self.registry_map()
    }

    fn get_access_hash(&self, peer_id: i64) -> (r: Result<Option<i64>, DomainError>) {
        self.get_access_hash(peer_id)
    }

    fn save_entity(
        &mut self,
        peer_id: i64,
        access_hash: i64,
        peer_type: &str,
        username: Option<&str>,
    ) -> (r: Result<(), DomainError>) {
        self.save_entity(peer_id, access_hash, peer_type, username)
    }
}

impl crate::ports::AnalysisLogPort for Store {
    open spec fn log_inv(&self) -> bool {
        self.wf()
    }

    open spec fn stored_rows(&self) -> Seq<MessageView> {
        self.rows_view()
    }

    open spec fn analyzed_weeks(&self, chat: int) -> Set<Seq<char>> {
        self.analyzed_set(chat)
    }

    open spec fn analysis_entry(&self, chat: int, week: Seq<char>) -> AnalysisResultView {
        self.analysis_entry_view(chat, week)
    }

    fn get_unanalyzed_weeks(&self, chat_id: i64) -> (r: Result<Vec<WeekGroup>, DomainError>) {
        self.get_unanalyzed_weeks(chat_id)
    }

    fn get_messages_by_week(&self, chat_id: i64) -> (r: Result<
        Vec<(WeekGroup, Vec<Message>)>,
        DomainError,
    >) {
        self.get_messages_by_week(chat_id)
    }

    fn save_analysis(&mut self, result: &AnalysisResult) -> (r: Result<(), DomainError>) {
        self.save_analysis(result)
    }

    fn get_analysis(&self, chat_id: i64, week_group: &WeekGroup) -> (r: Result<
        Option<AnalysisResult>,
        DomainError,
    >) {
        self.get_analysis(chat_id, week_group)
    }
}

} // verus!
