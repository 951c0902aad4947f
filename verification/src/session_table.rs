//! The live sessions of a runtime, with a least-recently-used clock for
//! eviction, and the per-session limits enforced after each mutation.
//!
//! Times are ticks of a monotonic clock that the caller reads; the table only
//! compares them.
use vstd::prelude::*;

use crate::session::{user_count, AgentSession};
use crate::types::{MessageRole, SessionId};

verus! {

/// Live sessions keyed by id, each with the time it was last used.
pub struct SessionTable {
    entries: Vec<(SessionId, AgentSession, u64)>,
}

impl SessionTable {
    /// Each id occurs at most once.
    pub closed spec fn wf(&self) -> bool {
        forall|i: int, j: int| 0 <= i < j < self.entries@.len() ==> (#[trigger] self.entries@[i]).0 != (#[trigger] self.entries@[j]).0
    }

    /// The sessions of the table, each with its last-use time.
    pub closed spec fn contents(&self) -> Map<SessionId, (AgentSession, u64)> {
        Map::new(
            |id: SessionId| exists|i: int| 0 <= i < self.entries@.len() && (#[trigger] self.entries@[i]).0 == id,
            |id: SessionId| {
                let i = choose|i: int| 0 <= i < self.entries@.len() && (#[trigger] self.entries@[i]).0 == id;
                (self.entries@[i].1, self.entries@[i].2)
            },
        )
    }

    proof fn lemma_contents_at(&self, i: int)
        requires
            self.wf(),
            0 <= i < self.entries@.len(),
        ensures
            self.contents().dom().contains(self.entries@[i].0),
            self.contents()[self.entries@[i].0] == (self.entries@[i].1, self.entries@[i].2),
    {
        let id = self.entries@[i].0;
        assert(self.contents().dom().contains(id));
        let c = choose|c: int| 0 <= c < self.entries@.len() && (#[trigger] self.entries@[c]).0 == id;
        if c != i {
            if c < i {
                assert(self.entries@[c].0 != self.entries@[i].0);
            } else {
                assert(self.entries@[i].0 != self.entries@[c].0);
            }
        }
    }

    proof fn lemma_len(&self)
        requires
            self.wf(),
        ensures
            self.contents().dom().finite(),
            self.contents().dom().len() == self.entries@.len(),
        decreases self.entries@.len(),
    {
        let ids = self.entries@.map_values(|e: (SessionId, AgentSession, u64)| e.0);
        assert(ids.no_duplicates()) by {
            assert forall|i: int, j: int| 0 <= i < ids.len() && 0 <= j < ids.len() && i != j implies ids[i] != ids[j] by {
                if i < j {
                    assert(self.entries@[i].0 != self.entries@[j].0);
                } else {
                    assert(self.entries@[j].0 != self.entries@[i].0);
                }
            }
        }
        assert(self.contents().dom() =~= ids.to_set()) by {
            assert forall|id: SessionId| self.contents().dom().contains(id) implies ids.to_set().contains(id) by {
                let c = choose|c: int| 0 <= c < self.entries@.len() && (#[trigger] self.entries@[c]).0 == id;
                assert(ids[c] == id);
            }
            assert forall|id: SessionId| ids.to_set().contains(id) implies self.contents().dom().contains(id) by {
                let c = choose|c: int| 0 <= c < ids.len() && ids[c] == id;
                assert(self.entries@[c].0 == id);
            }
        }
        ids.unique_seq_to_set();
    }

    /// An empty table.
    pub fn new() -> (t: SessionTable)
        ensures
            t.wf(),
            t.contents() == Map::<SessionId, (AgentSession, u64)>::empty(),
    {
        let t = SessionTable { entries: Vec::new() };
        assert(t.contents() =~= Map::<SessionId, (AgentSession, u64)>::empty());
        t
    }

    /// The number of live sessions.
    pub fn len(&self) -> (n: usize)
        requires
            self.wf(),
        ensures
            n == self.contents().dom().len(),
    {
        proof {
            self.lemma_len();
        }
        self.entries.len()
    }

    /// The position of `id`, if it is in the table.
    fn position(&self, id: SessionId) -> (r: Option<usize>)
        requires
            self.wf(),
        ensures
            match r {
                Some(i) => i < self.entries@.len() && self.entries@[i as int].0 == id,
                None => !self.contents().dom().contains(id),
            },
    {
        let mut i: usize = 0;
        while i < self.entries.len()
            invariant
                i <= self.entries@.len(),
                forall|j: int| 0 <= j < i ==> (#[trigger] self.entries@[j]).0 != id,
            decreases self.entries@.len() - i,
        {
            if self.entries[i].0 == id {
                return Some(i);
            }
            i = i + 1;
        }
        None
    }

    /// The session `id`, if it is live.
    pub fn get(&self, id: SessionId) -> (r: Option<&AgentSession>)
        requires
            self.wf(),
        ensures
            match r {
                Some(s) => self.contents().dom().contains(id) && *s == self.contents()[id].0,
                None => !self.contents().dom().contains(id),
            },
    {
        match self.position(id) {
            Some(i) => {
                proof {
                    self.lemma_contents_at(i as int);
                }
                Some(&self.entries[i].1)
            },
            None => None,
        }
    }

    /// Put `session` under `id`, used at `now`, replacing any session there.
    pub fn insert(&mut self, id: SessionId, session: AgentSession, now: u64)
        requires
            old(self).wf(),
        ensures
            final(self).wf(),
            final(self).contents() == old(self).contents().insert(id, (session, now)),
    {
        let ghost old_t = *self;
        match self.position(id) {
            Some(i) => {
                self.entries.set(i, (id, session, now));
                proof {
                    assert forall|a: int, b: int| 0 <= a < b < self.entries@.len() implies
                        (#[trigger] self.entries@[a]).0 != (#[trigger] self.entries@[b]).0 by {
                        assert(old_t.entries@[a].0 != old_t.entries@[b].0);
                    }
                    self.lemma_eq_after_set(old_t, i as int);
                }
            },
            None => {
                self.entries.push((id, session, now));
                proof {
                    let n = old_t.entries@.len() as int;
                    assert forall|a: int, b: int| 0 <= a < b < self.entries@.len() implies
                        (#[trigger] self.entries@[a]).0 != (#[trigger] self.entries@[b]).0 by {
                        if b < n {
                            assert(old_t.entries@[a].0 != old_t.entries@[b].0);
                        } else {
                            assert(old_t.entries@[a] == self.entries@[a]);
                            if old_t.entries@[a].0 == id {
                                assert(old_t.contents().dom().contains(id));
                            }
                        }
                    }
                    assert forall|q: SessionId| #[trigger] self.contents().dom().contains(q)
                        <==> old_t.contents().insert(id, (session, now)).dom().contains(q) by {
                        if self.contents().dom().contains(q) && q != id {
                            let c = choose|c: int| 0 <= c < self.entries@.len() && (#[trigger] self.entries@[c]).0 == q;
                            assert(old_t.entries@[c].0 == q);
                        }
                        if old_t.contents().dom().contains(q) {
                            let c = choose|c: int| 0 <= c < old_t.entries@.len() && (#[trigger] old_t.entries@[c]).0 == q;
                            assert(self.entries@[c].0 == q);
                        }
                        if q == id {
                            assert(self.entries@[n].0 == q);
                        }
                    }
                    assert forall|q: SessionId| #[trigger] self.contents().dom().contains(q)
                        implies self.contents()[q] == old_t.contents().insert(id, (session, now))[q] by {
                        let c = choose|c: int| 0 <= c < self.entries@.len() && (#[trigger] self.entries@[c]).0 == q;
                        self.lemma_contents_at(c);
                        if c < n {
                            assert(self.entries@[c] == old_t.entries@[c]);
                            old_t.lemma_contents_at(c);
                        }
                    }
                    assert(self.contents() =~= old_t.contents().insert(id, (session, now)));
                }
            },
        }
    }

    /// After overwriting the entry at `i` (same id), the contents are the old
    /// contents with that id's entry replaced.
    proof fn lemma_eq_after_set(&self, old_t: SessionTable, i: int)
        requires
            old_t.wf(),
            self.wf(),
            0 <= i < old_t.entries@.len(),
            self.entries@ == old_t.entries@.update(i, self.entries@[i]),
            self.entries@[i].0 == old_t.entries@[i].0,
        ensures
            self.contents() == old_t.contents().insert(self.entries@[i].0, (self.entries@[i].1, self.entries@[i].2)),
    {
        let id = self.entries@[i].0;
        let expect = old_t.contents().insert(id, (self.entries@[i].1, self.entries@[i].2));
        assert forall|q: SessionId| #[trigger] self.contents().dom().contains(q) <==> expect.dom().contains(q) by {
            if self.contents().dom().contains(q) {
                let c = choose|c: int| 0 <= c < self.entries@.len() && (#[trigger] self.entries@[c]).0 == q;
                assert(old_t.entries@[c].0 == q);
            }
            if old_t.contents().dom().contains(q) {
                let c = choose|c: int| 0 <= c < old_t.entries@.len() && (#[trigger] old_t.entries@[c]).0 == q;
                assert(self.entries@[c].0 == q);
            }
        }
        assert forall|q: SessionId| #[trigger] self.contents().dom().contains(q) implies self.contents()[q] == expect[q] by {
            let c = choose|c: int| 0 <= c < self.entries@.len() && (#[trigger] self.entries@[c]).0 == q;
            self.lemma_contents_at(c);
            if c != i {
                old_t.lemma_contents_at(c);
            }
        }
        assert(self.contents() =~= expect);
    }

    /// Mark the session `id` as used at `now`; nothing changes when it is
    /// not live.
    pub fn touch(&mut self, id: SessionId, now: u64)
        requires
            old(self).wf(),
        ensures
            final(self).wf(),
            final(self).contents() == if old(self).contents().dom().contains(id) {
                old(self).contents().insert(id, (old(self).contents()[id].0, now))
            } else {
                old(self).contents()
            },
    {
        let ghost old_t = *self;
        if let Some(i) = self.position(id) {
            proof {
                old_t.lemma_contents_at(i as int);
            }
            self.entries[i].2 = now;
            proof {
                assert forall|a: int, b: int| 0 <= a < b < self.entries@.len() implies
                    (#[trigger] self.entries@[a]).0 != (#[trigger] self.entries@[b]).0 by {
                    assert(old_t.entries@[a].0 != old_t.entries@[b].0);
                }
                assert(self.entries@ == old_t.entries@.update(i as int, self.entries@[i as int]));
                self.lemma_eq_after_set(old_t, i as int);
            }
        }
    }

    /// Direct mutable access to the session `id`, if it is live; its
    /// last-use time is kept.
    pub fn get_mut(&mut self, id: SessionId) -> (r: Option<&mut AgentSession>)
        requires
            old(self).wf(),
        ensures
            final(self).wf(),
            match r {
                Some(s) => {
                    &&& old(self).contents().dom().contains(id)
                    &&& *s == old(self).contents()[id].0
                    &&& final(self).contents() == old(self).contents().insert(id, (*final(s), old(self).contents()[id].1))
                },
                None => !old(self).contents().dom().contains(id) && *final(self) == *old(self),
            },
    {
        let ghost old_t = *self;
        match self.position(id) {
            Some(i) => {
                proof {
                    old_t.lemma_contents_at(i as int);
                }
                proof {
                    let stamp = old_t.entries@[i as int].2;
                    assert forall|t: SessionTable|
                        #![trigger t.wf()]
                        #![trigger t.contents()]
                        t.entries@ == old_t.entries@.update(i as int, t.entries@[i as int])
                            && t.entries@[i as int].0 == id && t.entries@[i as int].2 == stamp
                        implies t.wf() && t.contents() == old_t.contents().insert(id, (t.entries@[i as int].1, stamp)) by {
                        assert forall|a: int, b: int| 0 <= a < b < t.entries@.len() implies
                            (#[trigger] t.entries@[a]).0 != (#[trigger] t.entries@[b]).0 by {
                            assert(old_t.entries@[a].0 != old_t.entries@[b].0);
                        }
                        t.lemma_eq_after_set(old_t, i as int);
                    }
                }
                let r = &mut self.entries[i].1;
                Some(r)
            },
            None => None,
        }
    }

    /// Take the session `id` out of the table.
    pub fn remove(&mut self, id: SessionId) -> (r: Option<AgentSession>)
        requires
            old(self).wf(),
        ensures
            final(self).wf(),
            final(self).contents() == old(self).contents().remove(id),
            match r {
                Some(s) => old(self).contents().dom().contains(id) && s == old(self).contents()[id].0,
                None => !old(self).contents().dom().contains(id),
            },
    {
        let ghost old_t = *self;
        match self.position(id) {
            Some(i) => {
                proof {
                    old_t.lemma_contents_at(i as int);
                }
                let e = self.entries.remove(i);
                proof {
                    assert forall|a: int, b: int| 0 <= a < b < self.entries@.len() implies
                        (#[trigger] self.entries@[a]).0 != (#[trigger] self.entries@[b]).0 by {
                        let a2 = if a < i { a } else { a + 1 };
                        let b2 = if b < i { b } else { b + 1 };
                        assert(self.entries@[a] == old_t.entries@[a2]);
                        assert(self.entries@[b] == old_t.entries@[b2]);
                        assert(old_t.entries@[a2].0 != old_t.entries@[b2].0);
                    }
                    let expect = old_t.contents().remove(id);
                    assert forall|q: SessionId| #[trigger] self.contents().dom().contains(q) <==> expect.dom().contains(q) by {
                        if self.contents().dom().contains(q) {
                            let c = choose|c: int| 0 <= c < self.entries@.len() && (#[trigger] self.entries@[c]).0 == q;
                            let c2 = if c < i { c } else { c + 1 };
                            assert(old_t.entries@[c2].0 == q);
                            if q == id {
                                assert(old_t.entries@[c2].0 == old_t.entries@[i as int].0);
                                if c2 < i {
                                    assert(old_t.entries@[c2].0 != old_t.entries@[i as int].0);
                                } else {
                                    assert(old_t.entries@[i as int].0 != old_t.entries@[c2].0);
                                }
                            }
                        }
                        if expect.dom().contains(q) {
                            let c = choose|c: int| 0 <= c < old_t.entries@.len() && (#[trigger] old_t.entries@[c]).0 == q;
                            assert(c != i);
                            let c2 = if c < i { c } else { c - 1 };
                            assert(self.entries@[c2].0 == q);
                        }
                    }
                    assert forall|q: SessionId| #[trigger] self.contents().dom().contains(q) implies self.contents()[q] == expect[q] by {
                        let c = choose|c: int| 0 <= c < self.entries@.len() && (#[trigger] self.entries@[c]).0 == q;
                        self.lemma_contents_at(c);
                        let c2 = if c < i { c } else { c + 1 };
                        assert(self.entries@[c] == old_t.entries@[c2]);
                        old_t.lemma_contents_at(c2);
                    }
                    assert(self.contents() =~= expect);
                }
                Some(e.1)
            },
            None => {
                assert(old_t.contents().remove(id) =~= old_t.contents());
                None
            },
        }
    }

    /// A least recently used session, if the table is not empty.
    pub fn lru_victim(&self) -> (r: Option<SessionId>)
        requires
            self.wf(),
        ensures
            match r {
                Some(id) => {
                    &&& self.contents().dom().contains(id)
                    &&& forall|k: SessionId| #[trigger] self.contents().dom().contains(k)
                        ==> self.contents()[id].1 <= self.contents()[k].1
                },
                None => self.contents().dom().len() == 0,
            },
    {
        proof {
            self.lemma_len();
        }
        if self.entries.len() == 0 {
            return None;
        }
        let mut best: usize = 0;
        let mut i: usize = 1;
        while i < self.entries.len()
            invariant
                1 <= i <= self.entries@.len(),
                best < i,
                forall|j: int| 0 <= j < i ==> self.entries@[best as int].2 <= (#[trigger] self.entries@[j]).2,
            decreases self.entries@.len() - i,
        {
            if self.entries[i].2 < self.entries[best].2 {
                best = i;
            }
            i = i + 1;
        }
        proof {
            self.lemma_contents_at(best as int);
            assert forall|k: SessionId| #[trigger] self.contents().dom().contains(k)
                implies self.contents()[self.entries@[best as int].0].1 <= self.contents()[k].1 by {
                let c = choose|c: int| 0 <= c < self.entries@.len() && (#[trigger] self.entries@[c]).0 == k;
                self.lemma_contents_at(c);
            }
        }
        Some(self.entries[best].0)
    }

    /// The session to evict before another one comes in: none without a
    /// session limit or below it, else a least recently used one.
    pub fn eviction_candidate(&self, max_sessions: Option<usize>) -> (r: Option<SessionId>)
        requires
            self.wf(),
        ensures
            match max_sessions {
                None => r is None,
                Some(m) => if self.contents().dom().len() < m {
                    r is None
                } else {
                    match r {
                        Some(id) => {
                            &&& self.contents().dom().contains(id)
                            &&& forall|k: SessionId| #[trigger] self.contents().dom().contains(k)
                                ==> self.contents()[id].1 <= self.contents()[k].1
                        },
                        None => self.contents().dom().len() == 0,
                    }
                },
            },
    {
        match max_sessions {
            None => None,
            Some(m) => {
                if self.len() < m {
                    None
                } else {
                    self.lru_victim()
                }
            },
        }
    }

    /// Start a fresh session `id`, used at `now`, with `system_prompt` as its
    /// first message when there is one.
    pub fn create_session(&mut self, id: SessionId, system_prompt: Option<&str>, now: u64)
        requires
            old(self).wf(),
        ensures
            final(self).wf(),
            final(self).contents().dom() == old(self).contents().dom().insert(id),
            forall|k: SessionId| k != id && #[trigger] old(self).contents().dom().contains(k)
                ==> final(self).contents()[k] == old(self).contents()[k],
            ({
                let (s, t) = final(self).contents()[id];
                &&& t == now
                &&& s.identity() == Some(id)
                &&& s.total_calls() == 0
                &&& s.run() == crate::session::RunState::zero()
                &&& s.allowed() == Set::<Seq<char>>::empty()
                &&& match system_prompt {
                    Some(p) => s.messages().len() == 1 && crate::session::is_role_message(s.messages()[0], MessageRole::System, p@),
                    None => s.messages().len() == 0,
                }
            }),
    {
        let mut session = AgentSession::new(id);
        if let Some(p) = system_prompt {
            session.push_message(MessageRole::System, p);
        }
        self.insert(id, session, now);
    }
}

/// The session has more turns than `max_turns` allows, so it is trimmed
/// (after the caller persisted its full history).
pub open spec fn over_turn_limit(session: AgentSession, max_turns: Option<usize>) -> bool {
    match max_turns {
        Some(m) => user_count(session.messages()) > m,
        None => false,
    }
}

/// Whether the session has more turns than `max_turns` allows.
pub fn needs_turn_trim(session: &AgentSession, max_turns: Option<usize>) -> (b: bool)
    ensures
        b == over_turn_limit(*session, max_turns),
{
    match max_turns {
        Some(m) => session.turn_count() > m,
        None => false,
    }
}

/// Drop the session's last message when it is larger than `max_tokens`
/// allows; `last_tokens` is the token count of that message. Returns whether
/// a message was dropped.
pub fn drop_oversized_last(session: &mut AgentSession, max_tokens: Option<usize>, last_tokens: usize) -> (dropped: bool)
    ensures
        dropped == (max_tokens matches Some(m) && old(session).messages().len() > 0 && last_tokens > m),
        dropped ==> final(session).messages() == old(session).messages().drop_last(),
        !dropped ==> final(session).messages() == old(session).messages(),
        final(session).same_but_messages(old(session)),
{
    match max_tokens {
        Some(m) => {
            if session.chat_messages().len() > 0 && last_tokens > m {
                session.pop_last_message();
                true
            } else {
                false
            }
        },
        None => false,
    }
}


} // verus!
