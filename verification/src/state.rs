//! The per-chat checkpoint map: chat id to last durably saved message id.
//!
//! The deployment persists this map as a JSON file replaced atomically
//! (write a temp file, fsync, rename); the map semantics proved here are
//! what any such backend must show.

use vstd::prelude::*;
use crate::domain::DomainError;
use crate::ports::StatePort;

verus! {

/// In-memory checkpoint map.
pub struct CheckpointMap {
    entries: Vec<(i64, i32)>,
}

impl CheckpointMap {
    /// Whether a chat has a recorded checkpoint.
    pub closed spec fn cp_has(&self, c: int) -> bool {
        exists|i: int| 0 <= i < self.entries@.len() && (#[trigger] self.entries@[i]).0 == c
    }

    /// Index of a chat's entry.
    pub closed spec fn cp_index(&self, c: int) -> int {
        choose|i: int| 0 <= i < self.entries@.len() && (#[trigger] self.entries@[i]).0 == c
    }

    /// The checkpoint of a chat, 0 where none was recorded.
    pub closed spec fn checkpoint_of(&self, c: int) -> int {
        if self.cp_has(c) {
            self.entries@[self.cp_index(c)].1 as int
        } else {
            0
        }
    }

    /// Well-formedness: one entry per chat.
    pub closed spec fn wf(&self) -> bool {
        forall|i: int, j: int|
            0 <= i < j < self.entries@.len() ==> (#[trigger] self.entries@[i]).0 != (
            #[trigger] self.entries@[j]).0
    }

    /// An empty map: every checkpoint reads 0.
    pub fn new() -> (r: CheckpointMap)
        ensures
            r.wf(),
            forall|c: int| #[trigger] r.checkpoint_of(c) == 0,
    {
        let r = CheckpointMap { entries: Vec::new() };
        proof {
            assert forall|c: int| #[trigger] r.checkpoint_of(c) == 0 by {
                if r.cp_has(c) {
                    let i = choose|i: int|
                        0 <= i < r.entries@.len() && (#[trigger] r.entries@[i]).0 == c;
                    assert(false);
                }
            };
        }
        r
    }

    /// Any index whose entry matches the chat gives the checkpoint.
    proof fn lemma_entry_at(&self, i: int)
        requires
            self.wf(),
            0 <= i < self.entries@.len(),
        ensures
            self.cp_has(self.entries@[i].0 as int),
            self.checkpoint_of(self.entries@[i].0 as int) == self.entries@[i].1 as int,
    {
        let c = self.entries@[i].0 as int;
        assert(self.cp_has(c));
        let j = self.cp_index(c);
        assert(0 <= j < self.entries@.len() && self.entries@[j].0 == c);
        if i != j {
            assert(false);
        }
    }

    /// The last known message id for a chat, 0 if none.
    pub fn get_last_message_id(&self, chat_id: i64) -> (r: Result<i32, DomainError>)
        requires
            self.wf(),
        ensures
            r is Ok,
            r matches Ok(id) ==> id as int == self.checkpoint_of(chat_id as int),
    {
        let n = self.entries.len();
        let mut i: usize = 0;
        while i < n
            invariant
                self.wf(),
                i <= n,
                n == self.entries@.len(),
                forall|k: int| 0 <= k < i ==> (#[trigger] self.entries@[k]).0 != chat_id,
            decreases n - i,
        {
            if self.entries[i].0 == chat_id {
                proof {
                    self.lemma_entry_at(i as int);
                }
                return Ok(self.entries[i].1);
            }
            i = i + 1;
        }
        proof {
            if self.cp_has(chat_id as int) {
                let k = choose|k: int|
                    0 <= k < self.entries@.len() && (#[trigger] self.entries@[k]).0 == chat_id;
                assert(false);
            }
        }
        Ok(0)
    }

    /// Records the checkpoint of a chat; other chats are untouched. The
    /// in-memory map cannot fail.
    pub fn set_last_message_id(&mut self, chat_id: i64, message_id: i32) -> (r: Result<
        (),
        DomainError,
    >)
        requires
            old(self).wf(),
        ensures
            final(self).wf(),
            r is Ok,
            final(self).checkpoint_of(chat_id as int) == message_id as int,
            forall|c: int|
                c != chat_id as int ==> final(self).checkpoint_of(c) == old(self).checkpoint_of(c),
    {
        let n = self.entries.len();
        let mut i: usize = 0;
        while i < n
            invariant
                *self == *old(self),
                self.wf(),
                i <= n,
                n == self.entries@.len(),
                forall|k: int| 0 <= k < i ==> (#[trigger] self.entries@[k]).0 != chat_id,
            decreases n - i,
        {
            if self.entries[i].0 == chat_id {
                let ghost pre = *self;
                self.entries[i] = (chat_id, message_id);
                proof {
                    assert(self.entries@ =~= pre.entries@.update(
                        i as int,
                        (chat_id, message_id),
                    ));
                    self.lemma_replace_post(pre, i as int, chat_id as int);
                }
                return Ok(());
            }
            i = i + 1;
        }
        let ghost pre = *self;
        proof {
            if pre.cp_has(chat_id as int) {
                let k = choose|k: int|
                    0 <= k < pre.entries@.len() && (#[trigger] pre.entries@[k]).0 == chat_id;
                assert(false);
            }
        }
        self.entries.push((chat_id, message_id));
        proof {
            self.lemma_append_post(pre, chat_id as int);
        }
        Ok(())
    }

    /// After replacing the entry at a matching index, only that chat's
    /// checkpoint changed.
    proof fn lemma_replace_post(&self, pre: CheckpointMap, i: int, c: int)
        requires
            pre.wf(),
            0 <= i < pre.entries@.len(),
            pre.entries@[i].0 == c,
            self.entries@ == pre.entries@.update(i, self.entries@[i]),
            self.entries@[i].0 == c,
        ensures
            self.wf(),
            self.checkpoint_of(c) == self.entries@[i].1 as int,
            forall|q: int| q != c ==> self.checkpoint_of(q) == pre.checkpoint_of(q),
    {
        assert forall|a: int, b: int| 0 <= a < b < self.entries@.len() implies (
        #[trigger] self.entries@[a]).0 != (#[trigger] self.entries@[b]).0 by {
            assert(pre.entries@[a].0 != pre.entries@[b].0);
        };
        self.lemma_entry_at(i);
        assert forall|q: int| q != c implies self.checkpoint_of(q) == pre.checkpoint_of(q) by {
            if pre.cp_has(q) {
                let k = choose|k: int|
                    0 <= k < pre.entries@.len() && (#[trigger] pre.entries@[k]).0 == q;
                assert(k != i);
                assert(self.entries@[k].0 == q);
                self.lemma_entry_at(k);
                pre.lemma_entry_at(k);
            } else {
                if self.cp_has(q) {
                    let k = choose|k: int|
                        0 <= k < self.entries@.len() && (#[trigger] self.entries@[k]).0 == q;
                    assert(k != i);
                    assert(pre.entries@[k].0 == q);
                    assert(false);
                }
            }
        };
    }

    /// After appending an entry for a fresh chat, only that chat's
    /// checkpoint changed.
    proof fn lemma_append_post(&self, pre: CheckpointMap, c: int)
        requires
            pre.wf(),
            !pre.cp_has(c),
            self.entries@.len() == pre.entries@.len() + 1,
            self.entries@ == pre.entries@.push(self.entries@[pre.entries@.len() as int]),
            self.entries@[pre.entries@.len() as int].0 == c,
        ensures
            self.wf(),
            self.checkpoint_of(c) == self.entries@[pre.entries@.len() as int].1 as int,
            forall|q: int| q != c ==> self.checkpoint_of(q) == pre.checkpoint_of(q),
    {
        let last = pre.entries@.len() as int;
        assert forall|a: int, b: int| 0 <= a < b < self.entries@.len() implies (
        #[trigger] self.entries@[a]).0 != (#[trigger] self.entries@[b]).0 by {
            if b == last {
                if self.entries@[a].0 == c {
                    assert(pre.entries@[a].0 == c);
                    assert(pre.cp_has(c));
                }
            } else {
                assert(pre.entries@[a].0 != pre.entries@[b].0);
            }
        };
        self.lemma_entry_at(last);
        assert forall|q: int| q != c implies self.checkpoint_of(q) == pre.checkpoint_of(q) by {
            if pre.cp_has(q) {
                let k = choose|k: int|
                    0 <= k < pre.entries@.len() && (#[trigger] pre.entries@[k]).0 == q;
                assert(self.entries@[k].0 == q);
                self.lemma_entry_at(k);
                pre.lemma_entry_at(k);
            } else {
                if self.cp_has(q) {
                    let k = choose|k: int|
                        0 <= k < self.entries@.len() && (#[trigger] self.entries@[k]).0 == q;
                    assert(k < last);
                    assert(pre.entries@[k].0 == q);
                    assert(false);
                }
            }
        };
    }
}

impl StatePort for CheckpointMap {
    open spec fn state_inv(&self) -> bool {
        self.wf()
    }

    open spec fn spec_checkpoint(&self, chat: int) -> int {
        self.checkpoint_of(chat)
    }

    fn get_last_message_id(&self, chat_id: i64) -> (r: Result<i32, DomainError>) {
        self.get_last_message_id(chat_id)
    }

    fn set_last_message_id(&mut self, chat_id: i64, message_id: i32) -> (r: Result<
        (),
        DomainError,
    >) {
        self.set_last_message_id(chat_id, message_id)
    }
}

} // verus!
