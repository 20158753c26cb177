//! The peer resolution cache with request coalescing.
//!
//! Resolving a chat id to a platform input handle needs one dialog-list
//! iteration the first time — a heavy, rate-limited call. The resolver keeps
//! a cache for the process lifetime, and a singleflight table so that
//! concurrent resolutions of the same id trigger exactly one iteration: the
//! first caller becomes the leader, everyone else waits and re-reads the
//! cache.

use vstd::prelude::*;

verus! {

/// What a caller must do next after asking for a peer.
#[derive(Debug, Clone, Copy, PartialEq, Eq, Structural)]
pub enum ResolveAction {
    /// The peer is cached: read it back and return.
    UseCached,
    /// Another caller is already iterating the dialog list: wait for its
    /// signal, then start over.
    Wait,
    /// No resolution is in flight: this caller leads and performs the one
    /// dialog iteration.
    Lead,
}

/// The ids held by an id list, as a set.
pub open spec fn id_set(s: Seq<i64>) -> Set<int> {
    Set::new(|c: int| exists|i: int| 0 <= i < s.len() && (#[trigger] s[i]) as int == c)
}

/// Removes the one occurrence of an id from a duplicate-free id list.
fn remove_id(v: &mut Vec<i64>, x: i64)
    requires
        old(v)@.no_duplicates(),
    ensures
        final(v)@.no_duplicates(),
        id_set(final(v)@) == id_set(old(v)@).remove(x as int),
{
    let n = v.len();
    let mut i: usize = 0;
    while i < n
        invariant
            *v == *old(v),
            v@.no_duplicates(),
            i <= n,
            n == v@.len(),
            forall|k: int| 0 <= k < i ==> v@[k] != x,
        decreases n - i,
    {
        if v[i] == x {
            let ghost pre = v@;
            v.remove(i);
            proof {
                assert forall|c: int| #[trigger] id_set(v@).contains(c) implies id_set(
                    pre,
                ).contains(c) && c != x as int by {
                    let k = choose|k: int| 0 <= k < v@.len() && (#[trigger] v@[k]) as int == c;
                    let pk = if k < i {
                        k
                    } else {
                        k + 1
                    };
                    assert(pre[pk] as int == c);
                    if c == x as int {
                        assert(pre[pk] == x && pre[i as int] == x);
                        assert(false);
                    }
                };
                assert forall|c: int|
                    id_set(pre).contains(c) && c != x as int implies #[trigger] id_set(
                    v@,
                ).contains(c) by {
                    let k = choose|k: int| 0 <= k < pre.len() && (#[trigger] pre[k]) as int == c;
                    if k < i {
                        assert(v@[k] as int == c);
                    } else {
                        assert(k != i);
                        assert(v@[k - 1] as int == c);
                    }
                };
                assert(id_set(v@) =~= id_set(pre).remove(x as int));
                assert forall|a: int, b: int| 0 <= a < b < v@.len() implies v@[a] != v@[b] by {
                    let pa = if a < i {
                        a
                    } else {
                        a + 1
                    };
                    let pb = if b < i {
                        b
                    } else {
                        b + 1
                    };
                    assert(pre[pa] == v@[a]);
                    assert(pre[pb] == v@[b]);
                };
            }
            return ;
        }
        i = i + 1;
    }
    proof {
        assert forall|c: int| #[trigger] id_set(v@).contains(c) implies c != x as int by {
            let k = choose|k: int| 0 <= k < v@.len() && (#[trigger] v@[k]) as int == c;
        };
        assert(id_set(v@) =~= id_set(v@).remove(x as int));
    }
}

/// The resolver state for peers of type `P`: the long-lived cache and the
/// in-flight singleflight table.
pub struct PeerResolver<P> {
    cache: Vec<(i64, P)>,
    inflight: Vec<i64>,
}

impl<P> PeerResolver<P> {
    /// Chat ids with a cached peer.
    pub closed spec fn cached_ids(&self) -> Set<int> {
        Set::new(
            |c: int|
                exists|i: int|
                    0 <= i < self.cache@.len() && (#[trigger] self.cache@[i]).0 as int == c,
        )
    }

    /// Index of a chat's cache entry.
    pub closed spec fn cache_index(&self, c: int) -> int {
        choose|i: int| 0 <= i < self.cache@.len() && (#[trigger] self.cache@[i]).0 as int == c
    }

    /// The cached peer of a chat.
    pub closed spec fn cached_peer(&self, c: int) -> P {
        self.cache@[self.cache_index(c)].1
    }

    /// Chat ids with a resolution in flight.
    pub closed spec fn inflight_ids(&self) -> Set<int> {
        id_set(self.inflight@)
    }

    /// Well-formedness: one cache entry per chat, one in-flight marker per
    /// chat.
    pub closed spec fn wf(&self) -> bool {
        &&& forall|i: int, j: int|
            0 <= i < j < self.cache@.len() ==> (#[trigger] self.cache@[i]).0 != (
            #[trigger] self.cache@[j]).0
        &&& self.inflight@.no_duplicates()
    }

    /// A fresh resolver: empty cache, nothing in flight.
    pub fn new() -> (r: PeerResolver<P>)
        ensures
            r.wf(),
            r.cached_ids() =~= Set::<int>::empty(),
            r.inflight_ids() =~= Set::<int>::empty(),
    {
        let r = PeerResolver { cache: Vec::new(), inflight: Vec::new() };
        proof {
            assert forall|c: int| !r.cached_ids().contains(c) by {
                if r.cached_ids().contains(c) {
                    let i = choose|i: int|
                        0 <= i < r.cache@.len() && (#[trigger] r.cache@[i]).0 as int == c;
                    assert(false);
                }
            };
            assert forall|c: int| !r.inflight_ids().contains(c) by {
                if r.inflight_ids().contains(c) {
                    let i = choose|i: int|
                        0 <= i < r.inflight@.len() && (#[trigger] r.inflight@[i]) as int == c;
                    assert(false);
                }
            };
        }
        r
    }

    fn inflight_contains(&self, chat_id: i64) -> (r: bool)
        ensures
            r == self.inflight_ids().contains(chat_id as int),
    {
        let n = self.inflight.len();
        let mut i: usize = 0;
        while i < n
            invariant
                i <= n,
                n == self.inflight@.len(),
                forall|k: int| 0 <= k < i ==> self.inflight@[k] != chat_id,
            decreases n - i,
        {
            if self.inflight[i] == chat_id {
                proof {
                    assert(self.inflight@[i as int] as int == chat_id as int);
                }
                return true;
            }
            i = i + 1;
        }
        proof {
            if self.inflight_ids().contains(chat_id as int) {
                let k = choose|k: int|
                    0 <= k < self.inflight@.len() && (#[trigger] self.inflight@[k]) as int
                        == chat_id as int;
                assert(false);
            }
        }
        false
    }

    fn cache_find(&self, chat_id: i64) -> (r: Option<usize>)
        requires
            self.wf(),
        ensures
            r matches Some(i) ==> i < self.cache@.len() && self.cache@[i as int].0 == chat_id
                && self.cached_ids().contains(chat_id as int) && self.cache@[i as int].1
                == self.cached_peer(chat_id as int),
            r is None ==> !self.cached_ids().contains(chat_id as int),
    {
        let n = self.cache.len();
        let mut i: usize = 0;
        while i < n
            invariant
                self.wf(),
                i <= n,
                n == self.cache@.len(),
                forall|k: int| 0 <= k < i ==> (#[trigger] self.cache@[k]).0 != chat_id,
            decreases n - i,
        {
            if self.cache[i].0 == chat_id {
                proof {
                    assert(self.cache@[i as int].0 as int == chat_id as int);
                    assert(self.cached_ids().contains(chat_id as int));
                    let j = self.cache_index(chat_id as int);
                    assert(0 <= j < self.cache@.len() && self.cache@[j].0 as int
                        == chat_id as int);
                    if j != i {
                        assert(false);
                    }
                }
                return Some(i);
            }
            i = i + 1;
        }
        proof {
            if self.cached_ids().contains(chat_id as int) {
                let k = choose|k: int|
                    0 <= k < self.cache@.len() && (#[trigger] self.cache@[k]).0 as int
                        == chat_id as int;
                assert(false);
            }
        }
        None
    }

    /// Reads the cached peer of a chat, if resolution already happened.
    pub fn lookup(&self, chat_id: i64) -> (r: Option<&P>)
        requires
            self.wf(),
        ensures
            (r is Some) == self.cached_ids().contains(chat_id as int),
            r matches Some(p) ==> *p == self.cached_peer(chat_id as int),
    {
        match self.cache_find(chat_id) {
            Some(i) => Some(&self.cache[i].1),
            None => None,
        }
    }

    /// One coalescing step. With a cached peer the caller uses it. With a
    /// resolution already in flight the caller waits — this is what makes
    /// concurrent resolutions of one chat trigger exactly one dialog
    /// iteration: only the call that finds neither a cache entry nor an
    /// in-flight marker becomes the leader, and it marks the chat in flight
    /// so every later call waits instead.
    pub fn begin(&mut self, chat_id: i64) -> (r: ResolveAction)
        requires
            old(self).wf(),
        ensures
            final(self).wf(),
            final(self).cached_ids() == old(self).cached_ids(),
            forall|c: int|
                old(self).cached_ids().contains(c)
                    ==> #[trigger] final(self).cached_peer(c) == old(self).cached_peer(c),
            old(self).cached_ids().contains(chat_id as int) ==> r == ResolveAction::UseCached
                && final(self).inflight_ids() == old(self).inflight_ids(),
            !old(self).cached_ids().contains(chat_id as int) && old(self).inflight_ids().contains(
                chat_id as int,
            ) ==> r == ResolveAction::Wait && final(self).inflight_ids() == old(
                self,
            ).inflight_ids(),
            !old(self).cached_ids().contains(chat_id as int) && !old(self).inflight_ids().contains(
                chat_id as int,
            ) ==> r == ResolveAction::Lead && final(self).inflight_ids() == old(
                self,
            ).inflight_ids().insert(chat_id as int),
    {
        let cached = match self.cache_find(chat_id) {
            Some(_) => true,
            None => false,
        };
        if cached {
            return ResolveAction::UseCached;
        }
        if self.inflight_contains(chat_id) {
            return ResolveAction::Wait;
        }
        let ghost pre = self.inflight@;
        self.inflight.push(chat_id);
        proof {
            assert forall|c: int| #[trigger] id_set(self.inflight@).contains(c) implies id_set(
                pre,
            ).contains(c) || c == chat_id as int by {
                let k = choose|k: int|
                    0 <= k < self.inflight@.len() && (#[trigger] self.inflight@[k]) as int == c;
                if k < pre.len() {
                    assert(pre[k] as int == c);
                }
            };
            assert forall|c: int|
                id_set(pre).contains(c) || c == chat_id as int implies #[trigger] id_set(
                self.inflight@,
            ).contains(c) by {
                if id_set(pre).contains(c) {
                    let k = choose|k: int|
                        0 <= k < pre.len() && (#[trigger] pre[k]) as int == c;
                    assert(self.inflight@[k] as int == c);
                } else {
                    assert(self.inflight@[pre.len() as int] as int == c);
                }
            };
            assert(id_set(self.inflight@) =~= id_set(pre).insert(chat_id as int));
            if id_set(pre).contains(chat_id as int) {
                let k = choose|k: int|
                    0 <= k < pre.len() && (#[trigger] pre[k]) as int == chat_id as int;
                assert(false);
            }
            assert forall|a: int, b: int| 0 <= a < b < self.inflight@.len() implies self.inflight@[
                a
            ] != self.inflight@[b] by {
                if b == pre.len() {
                    if self.inflight@[a] == chat_id {
                        assert(pre[a] as int == chat_id as int);
                        assert(id_set(pre).contains(chat_id as int));
                    }
                } else {
                    assert(pre[a] != pre[b]);
                }
            };
        }
        ResolveAction::Lead
    }

    /// Any cache index whose entry matches the chat gives the cached peer.
    proof fn lemma_cache_at(&self, i: int)
        requires
            self.wf(),
            0 <= i < self.cache@.len(),
        ensures
            self.cached_ids().contains(self.cache@[i].0 as int),
            self.cached_peer(self.cache@[i].0 as int) == self.cache@[i].1,
    {
        let c = self.cache@[i].0 as int;
        assert(self.cache@[i].0 as int == c);
        assert(self.cached_ids().contains(c));
        let j = self.cache_index(c);
        assert(0 <= j < self.cache@.len() && self.cache@[j].0 as int == c);
        if i != j {
            assert(false);
        }
    }

    /// The leader finished its dialog iteration: the found peer enters the
    /// cache, the in-flight marker is removed, and every waiter re-reads the
    /// cache and now finds the same peer.
    pub fn complete(&mut self, chat_id: i64, peer: P)
        requires
            old(self).wf(),
            !old(self).cached_ids().contains(chat_id as int),
        ensures
            final(self).wf(),
            final(self).cached_ids() == old(self).cached_ids().insert(chat_id as int),
            final(self).cached_peer(chat_id as int) == peer,
            forall|c: int|
                c != chat_id as int && old(self).cached_ids().contains(c)
                    ==> #[trigger] final(self).cached_peer(c) == old(self).cached_peer(c),
            final(self).inflight_ids() == old(self).inflight_ids().remove(chat_id as int),
    {
        let ghost pre = *self;
        let ghost gpeer = peer;
        self.cache.push((chat_id, peer));
        remove_id(&mut self.inflight, chat_id);
        proof {
            let last = pre.cache@.len() as int;
            assert(self.cache@ =~= pre.cache@.push((chat_id, gpeer)));
            assert forall|a: int, b: int| 0 <= a < b < self.cache@.len() implies (
            #[trigger] self.cache@[a]).0 != (#[trigger] self.cache@[b]).0 by {
                if b == last {
                    if self.cache@[a].0 == chat_id {
                        assert(pre.cache@[a].0 as int == chat_id as int);
                        assert(pre.cached_ids().contains(chat_id as int));
                    }
                } else {
                    assert(pre.cache@[a].0 != pre.cache@[b].0);
                }
            };
            assert forall|c: int| #[trigger] self.cached_ids().contains(c) implies
                pre.cached_ids().contains(c) || c == chat_id as int by {
                let k = choose|k: int|
                    0 <= k < self.cache@.len() && (#[trigger] self.cache@[k]).0 as int == c;
                if k < last {
                    assert(pre.cache@[k].0 as int == c);
                }
            };
            assert forall|c: int|
                pre.cached_ids().contains(c) || c == chat_id as int implies #[trigger] self
                .cached_ids().contains(c) by {
                if pre.cached_ids().contains(c) {
                    let k = choose|k: int|
                        0 <= k < pre.cache@.len() && (#[trigger] pre.cache@[k]).0 as int == c;
                    assert(self.cache@[k].0 as int == c);
                } else {
                    assert(self.cache@[last].0 as int == c);
                }
            };
            assert(self.cached_ids() =~= pre.cached_ids().insert(chat_id as int));
            self.lemma_cache_at(last);
            assert forall|c: int|
                c != chat_id as int && pre.cached_ids().contains(c) implies #[trigger] self
                .cached_peer(c) == pre.cached_peer(c) by {
                let k = choose|k: int|
                    0 <= k < pre.cache@.len() && (#[trigger] pre.cache@[k]).0 as int == c;
                assert(self.cache@[k].0 as int == c);
                self.lemma_cache_at(k);
                pre.lemma_cache_at(k);
            };
        }
    }

    /// The leader's dialog iteration failed: the in-flight marker is removed
    /// so a later caller can lead again; the cache is untouched.
    pub fn fail(&mut self, chat_id: i64)
        requires
            old(self).wf(),
        ensures
            final(self).wf(),
            final(self).cached_ids() == old(self).cached_ids(),
            forall|c: int|
                old(self).cached_ids().contains(c)
                    ==> #[trigger] final(self).cached_peer(c) == old(self).cached_peer(c),
            final(self).inflight_ids() == old(self).inflight_ids().remove(chat_id as int),
    {
        remove_id(&mut self.inflight, chat_id);
    }
}

/// The singleflight law: after a leader's `begin` marked a chat in flight
/// and before its `complete` or `fail`, a further `begin` for that chat
/// waits instead of leading — the dialog iteration runs exactly once per
/// cold chat.
pub proof fn lemma_singleflight_coalesces<P>(
    cold: PeerResolver<P>,
    chat_id: i64,
    led: PeerResolver<P>,
)
    requires
        cold.wf(),
        !cold.cached_ids().contains(chat_id as int),
        !cold.inflight_ids().contains(chat_id as int),
        led.wf(),
        led.cached_ids() == cold.cached_ids(),
        led.inflight_ids() == cold.inflight_ids().insert(chat_id as int),
    ensures
        !led.cached_ids().contains(chat_id as int),
        led.inflight_ids().contains(chat_id as int),
{
}

} // verus!
