//! The JSON-lines repository shell: one append-only file per chat. The file
//! I/O, the reverse block scanning and the JSON codec live at the
//! composition root; the path rule and the newest-first deduplication the
//! reads rely on are verified here.

use vstd::prelude::*;
use crate::domain::{Message, MessageView};
use crate::textutil::{spec_dec_i64, fmt_i64};

verus! {

/// The file-system repository: a base directory holding one
/// `{chat_id}.jsonl` file per chat.
pub struct FsRepo {
    /// The directory holding the per-chat line files.
    pub base_dir: String,
}

impl FsRepo {
    /// A repository rooted at the given directory.
    pub fn new(base_dir: String) -> (r: FsRepo)
        ensures
            r.base_dir@ == base_dir@,
    {
        FsRepo { base_dir }
    }

    /// The file path of one chat's archive: `{base}/{chat_id}.jsonl`.
    pub fn chat_path(&self, chat_id: i64) -> (r: String)
        ensures
            r@ == self.base_dir@ + "/"@ + spec_dec_i64(chat_id as int) + ".jsonl"@,
    {
        let mut s = self.base_dir.clone();
        let mut s = s.concat("/");
        let cid = fmt_i64(chat_id);
        let mut s = s.concat(cid.as_str());
        let r = s.concat(".jsonl");
        proof {
            assert(r@ =~= self.base_dir@ + "/"@ + spec_dec_i64(chat_id as int) + ".jsonl"@);
        }
        r
    }
}

/// Some message in the sequence carries the id.
pub open spec fn spec_has_id(msgs: Seq<MessageView>, id: int) -> bool {
    exists|i: int| 0 <= i < msgs.len() && (#[trigger] msgs[i]).id == id
}

/// The last occurrence of an id — in an append-only line file the current
/// version of that message. Meaningful when [`spec_has_id`] holds.
pub open spec fn spec_latest_of(msgs: Seq<MessageView>, id: int) -> MessageView
    decreases msgs.len(),
{
    if msgs.len() == 0 {
        arbitrary()
    } else if msgs.last().id == id {
        msgs.last()
    } else {
        spec_latest_of(msgs.drop_last(), id)
    }
}

/// Keeps, for every message id, exactly its last occurrence — an append-only
/// line file lists re-observations oldest first, so the last one is the
/// current version. Every input id appears exactly once in the result,
/// holding its last occurrence's value.
pub fn dedup_latest_by_id(messages: Vec<Message>) -> (r: Vec<Message>)
    ensures
        forall|i: int, j: int|
            0 <= i < j < r@.len() ==> (#[trigger] r@[i])@.id != (#[trigger] r@[j])@.id,
        r@.len() <= messages@.len(),
        forall|i: int|
            0 <= i < messages@.len() ==> spec_has_id(
                r@.map_values(|m: Message| m@),
                (#[trigger] messages@[i])@.id,
            ),
        forall|j: int|
            0 <= j < r@.len() ==> spec_has_id(
                messages@.map_values(|m: Message| m@),
                (#[trigger] r@[j])@.id,
            ) && r@[j]@ == spec_latest_of(messages@.map_values(|m: Message| m@), r@[j]@.id),
{
    let ghost mv = messages@.map_values(|m: Message| m@);
    let n = messages.len();
    let mut out: Vec<Message> = Vec::new();
    let mut i: usize = 0;
    while i < n
        invariant
            i <= n,
            n == messages@.len(),
            mv == messages@.map_values(|m: Message| m@),
            out@.len() <= i,
            forall|a: int, b: int|
                0 <= a < b < out@.len() ==> (#[trigger] out@[a])@.id != (#[trigger] out@[b])@.id,
            forall|t: int|
                0 <= t < i ==> spec_has_id(
                    out@.map_values(|m: Message| m@),
                    (#[trigger] mv[t]).id,
                ),
            forall|j: int|
                0 <= j < out@.len() ==> spec_has_id(mv.take(i as int), (#[trigger] out@[j])@.id)
                    && out@[j]@ == spec_latest_of(mv.take(i as int), out@[j]@.id),
        decreases n - i,
    {
        let m = &messages[i];
        let ghost pre_out = out@;
        let on = out.len();
        let mut found: Option<usize> = None;
        let mut j: usize = 0;
        while j < on
            invariant
                *m == messages@[i as int],
                0 <= i < n,
                n == messages@.len(),
                j <= on,
                on == out@.len(),
                out@ == pre_out,
                found matches Some(k) ==> k < on && out@[k as int]@.id == m@.id,
                found is None ==> forall|t: int| 0 <= t < j ==> (#[trigger] out@[t])@.id != m@.id,
            decreases on - j,
        {
            if out[j].id == m.id {
                found = Some(j);
            }
            j = j + 1;
        }
        match found {
            Some(k) => {
                let copy = m.duplicate();
                out[k] = copy;
                proof {
                    assert(out@ =~= pre_out.update(k as int, out@[k as int]));
                    assert forall|a: int, b: int|
                        0 <= a < b < out@.len() implies (#[trigger] out@[a])@.id != (
                    #[trigger] out@[b])@.id by {
                        if a != k && b != k {
                            assert(out@[a] == pre_out[a] && out@[b] == pre_out[b]);
                        } else if a == k {
                            assert(out@[b] == pre_out[b]);
                            assert(pre_out[a]@.id == m@.id);
                        } else {
                            assert(out@[a] == pre_out[a]);
                            assert(pre_out[b]@.id == m@.id);
                        }
                    };
                    lemma_dedup_step(mv, pre_out, out@, i as int, k as int);
                }
            },
            None => {
                out.push(m.duplicate());
                proof {
                    assert forall|a: int, b: int|
                        0 <= a < b < out@.len() implies (#[trigger] out@[a])@.id != (
                    #[trigger] out@[b])@.id by {
                        if b == out@.len() - 1 {
                            assert(out@[a] == pre_out[a]);
                        }
                    };
                    lemma_dedup_push(mv, pre_out, out@, i as int);
                }
            },
        }
        i = i + 1;
    }
    proof {
        assert(mv.take(n as int) =~= mv);
        assert forall|t: int| 0 <= t < messages@.len() implies spec_has_id(
            out@.map_values(|m: Message| m@),
            (#[trigger] messages@[t])@.id,
        ) by {
            assert(mv[t] == messages@[t]@);
        };
    }
    out
}

/// One step of the deduplication where the id was seen before: replacing the
/// stored message at its index with the newer occurrence keeps every stored
/// message the last occurrence of its id up to the new prefix, and keeps the
/// prefix covered.
proof fn lemma_dedup_step(mv: Seq<MessageView>, pre: Seq<Message>, post: Seq<Message>, i: int, k: int)
    requires
        0 <= i < mv.len(),
        0 <= k < pre.len(),
        post == pre.update(k, post[k]),
        post.len() == pre.len(),
        post[k]@ == mv[i],
        pre[k]@.id == mv[i].id,
        forall|a: int, b: int|
            0 <= a < b < pre.len() ==> (#[trigger] pre[a])@.id != (#[trigger] pre[b])@.id,
        forall|t: int|
            0 <= t < i ==> spec_has_id(pre.map_values(|m: Message| m@), (#[trigger] mv[t]).id),
        forall|j: int|
            0 <= j < pre.len() ==> spec_has_id(mv.take(i), (#[trigger] pre[j])@.id) && pre[j]@
                == spec_latest_of(mv.take(i), pre[j]@.id),
    ensures
        forall|t: int|
            0 <= t < i + 1 ==> spec_has_id(
                post.map_values(|m: Message| m@),
                (#[trigger] mv[t]).id,
            ),
        forall|j: int|
            0 <= j < post.len() ==> spec_has_id(mv.take(i + 1), (#[trigger] post[j])@.id)
                && post[j]@ == spec_latest_of(mv.take(i + 1), post[j]@.id),
{
    assert(mv.take(i + 1).drop_last() =~= mv.take(i));
    assert(mv.take(i + 1).last() == mv[i]);
    assert forall|j: int| 0 <= j < post.len() implies spec_has_id(mv.take(i + 1), (
    #[trigger] post[j])@.id) && post[j]@ == spec_latest_of(mv.take(i + 1), post[j]@.id) by {
        if j == k {
            assert(mv.take(i + 1)[i] == mv[i]);
            assert(spec_has_id(mv.take(i + 1), mv[i].id));
            assert(spec_latest_of(mv.take(i + 1), mv[i].id) == mv[i]);
        } else {
            assert(post[j] == pre[j]);
            if j < k {
                assert(pre[j]@.id != pre[k]@.id);
            } else {
                assert(pre[k]@.id != pre[j]@.id);
            }
            assert(pre[j]@.id != mv[i].id);
            let t0 = choose|t0: int|
                0 <= t0 < mv.take(i).len() && (#[trigger] mv.take(i)[t0]).id == pre[j]@.id;
            assert(mv.take(i + 1)[t0] == mv.take(i)[t0]);
            assert(spec_has_id(mv.take(i + 1), pre[j]@.id));
            assert(spec_latest_of(mv.take(i + 1), pre[j]@.id) == spec_latest_of(
                mv.take(i),
                pre[j]@.id,
            ));
        }
    };
    assert forall|t: int| 0 <= t < i + 1 implies spec_has_id(
        post.map_values(|m: Message| m@),
        (#[trigger] mv[t]).id,
    ) by {
        if t < i {
            let pv = pre.map_values(|m: Message| m@);
            let j0 = choose|j0: int| 0 <= j0 < pv.len() && pv[j0].id == mv[t].id;
            assert(post.map_values(|m: Message| m@)[j0].id == pre[j0]@.id);
            assert(spec_has_id(post.map_values(|m: Message| m@), mv[t].id));
        } else {
            assert(post.map_values(|m: Message| m@)[k].id == mv[i].id);
            assert(spec_has_id(post.map_values(|m: Message| m@), mv[i].id));
        }
    };
}

/// One step of the deduplication where the id is new: appending the message
/// keeps every stored message the last occurrence of its id up to the new
/// prefix, and extends the coverage by the new id.
proof fn lemma_dedup_push(mv: Seq<MessageView>, pre: Seq<Message>, post: Seq<Message>, i: int)
    requires
        0 <= i < mv.len(),
        post.len() == pre.len() + 1,
        forall|j: int| 0 <= j < pre.len() ==> #[trigger] post[j] == pre[j],
        post[pre.len() as int]@ == mv[i],
        forall|t: int| 0 <= t < pre.len() ==> (#[trigger] pre[t])@.id != mv[i].id,
        forall|t: int|
            0 <= t < i ==> spec_has_id(pre.map_values(|m: Message| m@), (#[trigger] mv[t]).id),
        forall|j: int|
            0 <= j < pre.len() ==> spec_has_id(mv.take(i), (#[trigger] pre[j])@.id) && pre[j]@
                == spec_latest_of(mv.take(i), pre[j]@.id),
    ensures
        forall|t: int|
            0 <= t < i + 1 ==> spec_has_id(
                post.map_values(|m: Message| m@),
                (#[trigger] mv[t]).id,
            ),
        forall|j: int|
            0 <= j < post.len() ==> spec_has_id(mv.take(i + 1), (#[trigger] post[j])@.id)
                && post[j]@ == spec_latest_of(mv.take(i + 1), post[j]@.id),
{
    assert(mv.take(i + 1).drop_last() =~= mv.take(i));
    assert(mv.take(i + 1).last() == mv[i]);
    assert forall|j: int| 0 <= j < post.len() implies spec_has_id(mv.take(i + 1), (
    #[trigger] post[j])@.id) && post[j]@ == spec_latest_of(mv.take(i + 1), post[j]@.id) by {
        if j == post.len() - 1 {
            assert(mv.take(i + 1)[i] == mv[i]);
            assert(spec_has_id(mv.take(i + 1), mv[i].id));
            assert(spec_latest_of(mv.take(i + 1), mv[i].id) == mv[i]);
        } else {
            assert(post[j] == pre[j]);
            assert(pre[j]@.id != mv[i].id);
            let t0 = choose|t0: int|
                0 <= t0 < mv.take(i).len() && (#[trigger] mv.take(i)[t0]).id == pre[j]@.id;
            assert(mv.take(i + 1)[t0] == mv.take(i)[t0]);
            assert(spec_has_id(mv.take(i + 1), pre[j]@.id));
            assert(spec_latest_of(mv.take(i + 1), pre[j]@.id) == spec_latest_of(
                mv.take(i),
                pre[j]@.id,
            ));
        }
    };
    assert forall|t: int| 0 <= t < i + 1 implies spec_has_id(
        post.map_values(|m: Message| m@),
        (#[trigger] mv[t]).id,
    ) by {
        if t < i {
            let pv = pre.map_values(|m: Message| m@);
            let j0 = choose|j0: int| 0 <= j0 < pv.len() && pv[j0].id == mv[t].id;
            assert(post.map_values(|m: Message| m@)[j0].id == pre[j0]@.id);
            assert(spec_has_id(post.map_values(|m: Message| m@), mv[t].id));
        } else {
            assert(post.map_values(|m: Message| m@)[pre.len() as int].id == mv[i].id);
            assert(spec_has_id(post.map_values(|m: Message| m@), mv[i].id));
        }
    };
}

} // verus!
