//! The session table: live return paths keyed by (client address, upstream
//! address), each with a creation and a last-activity timestamp on a
//! monotonic clock, swept for inactivity every poll interval.

use vstd::prelude::*;

use crate::endpoint::EndpointAddress;

verus! {

/// The key of a live session: where the datagram came from and which
/// upstream endpoint it was forwarded to.
#[derive(Clone, Copy, PartialEq, Eq, Structural, Debug, Hash)]
pub struct SessionKey {
    pub source: EndpointAddress,
    pub dest: EndpointAddress,
}

/// A live session's timestamps, in ticks of a monotonic clock.
#[derive(Clone, Copy, PartialEq, Eq, Structural, Debug)]
pub struct Session {
    pub created_at: u64,
    pub last_activity: u64,
}

/// Whether a session has been idle for at least `timeout` ticks at `now`.
pub open spec fn session_expired(s: Session, now: u64, timeout: u64) -> bool {
    now >= s.last_activity + timeout
}

/// The map a sequence of (key, session) entries denotes.
pub open spec fn map_of(s: Seq<(SessionKey, Session)>) -> Map<SessionKey, Session>
    decreases s.len(),
{
    if s.len() == 0 {
        Map::empty()
    } else {
        map_of(s.drop_last()).insert(s.last().0, s.last().1)
    }
}

/// No two entries share a key.
pub open spec fn entries_unique(s: Seq<(SessionKey, Session)>) -> bool {
    forall|i: int, j: int| 0 <= i < j < s.len() ==> s[i].0 != s[j].0
}

/// The denoted map of a unique-keyed entry list: its domain is exactly the
/// listed keys, its values the listed sessions, and its size the list's
/// length.
pub proof fn lemma_map_of(s: Seq<(SessionKey, Session)>)
    requires
        entries_unique(s),
    ensures
        map_of(s).dom().finite(),
        map_of(s).dom().len() == s.len(),
        forall|k: SessionKey|
            #![trigger map_of(s).contains_key(k)]
            map_of(s).contains_key(k) <==> exists|i: int| 0 <= i < s.len() && s[i].0 == k,
        forall|i: int| 0 <= i < s.len() ==> map_of(s)[#[trigger] s[i].0] == s[i].1,
    decreases s.len(),
{
    if s.len() > 0 {
        assert(entries_unique(s.drop_last()));
        lemma_map_of(s.drop_last());
        let front = map_of(s.drop_last());
        assert(!front.contains_key(s.last().0)) by {
            if front.contains_key(s.last().0) {
                let i = choose|i: int|
                    0 <= i < s.drop_last().len() && s.drop_last()[i].0 == s.last().0;
                assert(s[i].0 == s[s.len() - 1].0);
            }
        }
        assert forall|k: SessionKey| #![trigger map_of(s).contains_key(k)]
            map_of(s).contains_key(k) <==> exists|i: int| 0 <= i < s.len() && s[i].0 == k by {
            if map_of(s).contains_key(k) {
                if k == s.last().0 {
                    assert(s[s.len() - 1].0 == k);
                } else {
                    let i = choose|i: int|
                        0 <= i < s.drop_last().len() && s.drop_last()[i].0 == k;
                    assert(s[i].0 == k);
                }
            }
            if exists|i: int| 0 <= i < s.len() && s[i].0 == k {
                let i = choose|i: int| 0 <= i < s.len() && s[i].0 == k;
                if i < s.len() - 1 {
                    assert(s.drop_last()[i].0 == k);
                }
            }
        }
        assert forall|i: int| 0 <= i < s.len() implies map_of(s)[#[trigger] s[i].0] == s[i].1 by {
            if i < s.len() - 1 {
                assert(s.drop_last()[i] == s[i]);
                assert(s[i].0 != s.last().0);
            }
        }
    }
}

/// Entries kept by a sweep at `now`: those not yet expired, in order.
pub open spec fn sweep_entries(s: Seq<(SessionKey, Session)>, now: u64, timeout: u64) -> Seq<
    (SessionKey, Session),
>
    decreases s.len(),
{
    if s.len() == 0 {
        s
    } else {
        let front = sweep_entries(s.drop_last(), now, timeout);
        if session_expired(s.last().1, now, timeout) {
            front
        } else {
            front.push(s.last())
        }
    }
}

/// A sweep keeps exactly the unexpired entries, unchanged and unique.
pub proof fn lemma_sweep_entries(s: Seq<(SessionKey, Session)>, now: u64, timeout: u64)
    requires
        entries_unique(s),
    ensures
        entries_unique(sweep_entries(s, now, timeout)),
        forall|e: (SessionKey, Session)|
            #![trigger sweep_entries(s, now, timeout).contains(e)]
            #![trigger s.contains(e)]
            sweep_entries(s, now, timeout).contains(e) <==> s.contains(e) && !session_expired(
                e.1,
                now,
                timeout,
            ),
        sweep_entries(s, now, timeout).len() <= s.len(),
    decreases s.len(),
{
    if s.len() > 0 {
        assert(entries_unique(s.drop_last()));
        lemma_sweep_entries(s.drop_last(), now, timeout);
        let front = sweep_entries(s.drop_last(), now, timeout);
        assert forall|e: (SessionKey, Session)|
            sweep_entries(s, now, timeout).contains(e) <==> s.contains(e) && !session_expired(
                e.1,
                now,
                timeout,
            ) by {
            if s.contains(e) && !session_expired(e.1, now, timeout) {
                let i = choose|i: int| 0 <= i < s.len() && s[i] == e;
                if i < s.len() - 1 {
                    assert(s.drop_last().contains(e)) by {
                        assert(s.drop_last()[i] == e);
                    }
                    let j = choose|j: int| 0 <= j < front.len() && front[j] == e;
                    assert(sweep_entries(s, now, timeout).contains(e)) by {
                        assert(sweep_entries(s, now, timeout)[j] == e);
                    }
                } else {
                    assert(e == s.last());
                    assert(sweep_entries(s, now, timeout).last() == e);
                }
            }
            if sweep_entries(s, now, timeout).contains(e) {
                let i = choose|i: int|
                    0 <= i < sweep_entries(s, now, timeout).len() && sweep_entries(
                        s,
                        now,
                        timeout,
                    )[i] == e;
                if session_expired(s.last().1, now, timeout) {
                    assert(front[i] == e);
                    assert(front.contains(e));
                } else {
                    if i < sweep_entries(s, now, timeout).len() - 1 {
                        assert(front[i] == e);
                        assert(front.contains(e));
                    } else {
                        assert(e == s.last());
                        assert(s.contains(e)) by {
                            assert(s[s.len() - 1] == e);
                        }
                    }
                }
                if front.contains(e) {
                    assert(s.drop_last().contains(e));
                    let j = choose|j: int|
                        0 <= j < s.drop_last().len() && s.drop_last()[j] == e;
                    assert(s[j] == e);
                }
            }
        }
        if !session_expired(s.last().1, now, timeout) {
            assert forall|p: int, q: int|
                0 <= p < q < sweep_entries(s, now, timeout).len() implies sweep_entries(
                s,
                now,
                timeout,
            )[p].0 != sweep_entries(s, now, timeout)[q].0 by {
                if q == sweep_entries(s, now, timeout).len() - 1 {
                    let e = sweep_entries(s, now, timeout)[p];
                    assert(front.contains(e)) by {
                        assert(front[p] == e);
                    }
                    assert(s.drop_last().contains(e));
                    let j = choose|j: int|
                        0 <= j < s.drop_last().len() && s.drop_last()[j] == e;
                    assert(s[j] == e);
                    assert(s[j].0 != s[s.len() - 1].0);
                }
            }
        }
    }
}

/// The table of live sessions, with its inactivity timeout and the sweeper's
/// poll interval, both in ticks.
#[derive(Debug)]
pub struct SessionMap {
    entries: Vec<(SessionKey, Session)>,
    timeout: u64,
    poll_interval: u64,
}

impl View for SessionMap {
    type V = Map<SessionKey, Session>;

    closed spec fn view(&self) -> Map<SessionKey, Session> {
        map_of(self.entries@)
    }
}

impl SessionMap {
    /// The entry list behind the map has no duplicate keys.
    pub closed spec fn wf(self) -> bool {
        entries_unique(self.entries@)
    }

    /// The inactivity timeout, in ticks.
    pub closed spec fn spec_timeout(self) -> u64 {
        self.timeout
    }

    /// The sweeper's poll interval, in ticks.
    pub closed spec fn spec_poll_interval(self) -> u64 {
        self.poll_interval
    }

    /// The inactivity timeout, in ticks.
    pub fn timeout(&self) -> (r: u64)
        ensures
            r == self.spec_timeout(),
    {
        self.timeout
    }

    /// The sweeper's poll interval, in ticks.
    pub fn poll_interval(&self) -> (r: u64)
        ensures
            r == self.spec_poll_interval(),
    {
        self.poll_interval
    }

    /// The number of live sessions.
    pub closed spec fn spec_len(self) -> nat {
        self.entries@.len()
    }

    /// An empty session table with the given timeout and poll interval.
    pub fn new(timeout: u64, poll_interval: u64) -> (r: SessionMap)
        ensures
            r@ == Map::<SessionKey, Session>::empty(),
            r.wf(),
            r.spec_timeout() == timeout,
            r.spec_poll_interval() == poll_interval,
    {
        SessionMap { entries: Vec::new(), timeout, poll_interval }
    }

    /// The number of live sessions.
    pub fn len(&self) -> (r: usize)
        requires
            self.wf(),
        ensures
            r == self@.dom().len(),
            self@.dom().finite(),
    {
        proof {
            lemma_map_of(self.entries@);
        }
        self.entries.len()
    }

    /// The session under a key, if one is live.
    pub fn get(&self, key: &SessionKey) -> (r: Option<Session>)
        requires
            self.wf(),
        ensures
            match r {
                Some(s) => self@.contains_key(*key) && self@[*key] == s,
                None => !self@.contains_key(*key),
            },
    {
        proof {
            lemma_map_of(self.entries@);
        }
        let n = self.entries.len();
        let mut i: usize = 0;
        while i < n
            invariant
                self.wf(),
                n == self.entries.len(),
                0 <= i <= n,
                forall|j: int| 0 <= j < i ==> self.entries@[j].0 != *key,
            decreases n - i,
        {
            if self.entries[i].0 == *key {
                proof {
                    lemma_map_of(self.entries@);
                    assert(self.entries@[i as int].0 == *key);
                }
                return Some(self.entries[i].1);
            }
            i += 1;
        }
        proof {
            lemma_map_of(self.entries@);
            if self@.contains_key(*key) {
                let j = choose|j: int|
                    0 <= j < self.entries@.len() && self.entries@[j].0 == *key;
            }
        }
        None
    }

    /// Records a packet for `key` at time `now`: refreshes the session's
    /// last activity, creating the session first when none is live. Returns
    /// whether a session was created.
    pub fn touch(&mut self, key: SessionKey, now: u64) -> (created: bool)
        requires
            old(self).wf(),
        ensures
            final(self).wf(),
            final(self).spec_timeout() == old(self).spec_timeout(),
            final(self).spec_poll_interval() == old(self).spec_poll_interval(),
            created == !old(self)@.contains_key(key),
            final(self)@ == old(self)@.insert(
                key,
                Session {
                    created_at: if old(self)@.contains_key(key) {
                        old(self)@[key].created_at
                    } else {
                        now
                    },
                    last_activity: now,
                },
            ),
            final(self)@.dom().finite(),
            old(self)@.dom().finite(),
            final(self)@.dom().len() == old(self)@.dom().len() + (if old(
                self,
            )@.contains_key(key) {
                0int
            } else {
                1int
            }),
    {
        proof {
            lemma_map_of(self.entries@);
        }
        let ghost pre = self.entries@;
        let n = self.entries.len();
        let mut i: usize = 0;
        while i < n
            invariant
                self.wf(),
                pre == self.entries@,
                pre == old(self).entries@,
                self.timeout == old(self).timeout,
                self.poll_interval == old(self).poll_interval,
                n == self.entries.len(),
                0 <= i <= n,
                forall|j: int| 0 <= j < i ==> self.entries@[j].0 != key,
            decreases n - i,
        {
            if self.entries[i].0 == key {
                let created_at = self.entries[i].1.created_at;
                let updated = (key, Session { created_at, last_activity: now });
                self.entries.remove(i);
                self.entries.insert(i, updated);
                proof {
                    assert(self.entries@ =~= pre.update(i as int, updated));
                    assert(entries_unique(self.entries@)) by {
                        assert forall|p: int, q: int|
                            0 <= p < q < self.entries@.len() implies self.entries@[p].0
                            != self.entries@[q].0 by {
                            assert(pre[p].0 != pre[q].0);
                        }
                    }
                    lemma_map_of(pre);
                    lemma_map_of(self.entries@);
                    assert(pre[i as int].0 == key);
                    assert(map_of(self.entries@) =~= map_of(pre).insert(key, updated.1)) by {
                        assert forall|k: SessionKey|
                            map_of(self.entries@).contains_key(k) <==> map_of(pre).insert(
                                key,
                                updated.1,
                            ).contains_key(k) by {
                            if map_of(self.entries@).contains_key(k) {
                                let j = choose|j: int|
                                    0 <= j < self.entries@.len() && self.entries@[j].0 == k;
                                assert(pre[j].0 == k);
                            }
                            if map_of(pre).insert(key, updated.1).contains_key(k) {
                                if k == key {
                                    assert(self.entries@[i as int].0 == k);
                                } else {
                                    let j = choose|j: int|
                                        0 <= j < pre.len() && pre[j].0 == k;
                                    assert(self.entries@[j].0 == k);
                                }
                            }
                        }
                        assert forall|k: SessionKey|
                            map_of(self.entries@).contains_key(k) implies map_of(
                            self.entries@,
                        )[k] == map_of(pre).insert(key, updated.1)[k] by {
                            let j = choose|j: int|
                                0 <= j < self.entries@.len() && self.entries@[j].0 == k;
                            assert(map_of(self.entries@)[self.entries@[j].0]
                                == self.entries@[j].1);
                            if k != key {
                                assert(j != i);
                                assert(pre[j] == self.entries@[j]);
                                assert(map_of(pre)[pre[j].0] == pre[j].1);
                            }
                        }
                    }
                    assert(map_of(pre).contains_key(key)) by {
                        assert(pre[i as int].0 == key);
                    }
                    assert(map_of(pre)[key].created_at == created_at) by {
                        assert(map_of(pre)[pre[i as int].0] == pre[i as int].1);
                    }
                }
                return false;
            }
            i += 1;
        }
        proof {
            lemma_map_of(pre);
            assert(!map_of(pre).contains_key(key)) by {
                if map_of(pre).contains_key(key) {
                    let j = choose|j: int| 0 <= j < pre.len() && pre[j].0 == key;
                }
            }
        }
        let fresh = (key, Session { created_at: now, last_activity: now });
        self.entries.push(fresh);
        proof {
            assert(entries_unique(self.entries@)) by {
                assert forall|p: int, q: int|
                    0 <= p < q < self.entries@.len() implies self.entries@[p].0
                    != self.entries@[q].0 by {
                    if q == self.entries@.len() - 1 {
                        assert(self.entries@[p] == pre[p]);
                    } else {
                        assert(self.entries@[p] == pre[p]);
                        assert(self.entries@[q] == pre[q]);
                    }
                }
            }
            assert(self.entries@.drop_last() =~= pre);
            lemma_map_of(self.entries@);
        }
        true
    }

    /// Removes every session idle for at least the timeout at `now`,
    /// returning how many were removed. A session is kept exactly when it is
    /// not yet expired, and kept sessions are unchanged.
    pub fn sweep(&mut self, now: u64) -> (removed: usize)
        requires
            old(self).wf(),
        ensures
            final(self).wf(),
            final(self).spec_timeout() == old(self).spec_timeout(),
            final(self).spec_poll_interval() == old(self).spec_poll_interval(),
            forall|k: SessionKey|
                #![trigger final(self)@.contains_key(k)]
                final(self)@.contains_key(k) <==> old(self)@.contains_key(k)
                    && !session_expired(old(self)@[k], now, old(self).spec_timeout()),
            forall|k: SessionKey|
                final(self)@.contains_key(k) ==> final(self)@[k] == old(self)@[k],
            final(self)@.dom().finite() && old(self)@.dom().finite(),
            final(self)@.dom().len() + removed == old(self)@.dom().len(),
    {
        let ghost pre = self.entries@;
        let timeout = self.timeout;
        let mut kept: Vec<(SessionKey, Session)> = Vec::new();
        let n = self.entries.len();
        let mut i: usize = 0;
        while i < n
            invariant
                self.wf(),
                pre == self.entries@,
                pre == old(self).entries@,
                timeout == self.timeout,
                self.timeout == old(self).timeout,
                self.poll_interval == old(self).poll_interval,
                n == self.entries.len(),
                0 <= i <= n,
                kept@ == sweep_entries(pre.take(i as int), now, timeout),
            decreases n - i,
        {
            proof {
                assert(pre.take(i + 1 as int).drop_last() =~= pre.take(i as int));
                assert(pre.take(i + 1 as int).last() == pre[i as int]);
            }
            let entry = self.entries[i];
            let expired_now = entry.1.last_activity <= now && now - entry.1.last_activity
                >= timeout;
            proof {
                assert(expired_now == session_expired(entry.1, now, timeout));
            }
            if !expired_now {
                kept.push(entry);
                proof {
                    assert(kept@ =~= sweep_entries(pre.take(i + 1 as int), now, timeout));
                }
            }
            i += 1;
        }
        proof {
            assert(pre.take(n as int) =~= pre);
            lemma_sweep_entries(pre, now, timeout);
            lemma_map_of(pre);
            lemma_map_of(sweep_entries(pre, now, timeout));
        }
        let removed = self.entries.len() - kept.len();
        self.entries = kept;
        proof {
            assert(self.entries@ == sweep_entries(pre, now, timeout));
            assert forall|k: SessionKey| #![trigger map_of(self.entries@).contains_key(k)]
                map_of(self.entries@).contains_key(k) <==> map_of(pre).contains_key(k)
                    && !session_expired(map_of(pre)[k], now, timeout) by {
                if map_of(self.entries@).contains_key(k) {
                    let j = choose|j: int|
                        0 <= j < self.entries@.len() && self.entries@[j].0 == k;
                    let e = self.entries@[j];
                    assert(sweep_entries(pre, now, timeout).contains(e)) by {
                        assert(self.entries@[j] == e);
                        assert(self.entries@.contains(e));
                    }
                    assert(pre.contains(e) && !session_expired(e.1, now, timeout));
                    let p = choose|p: int| 0 <= p < pre.len() && pre[p] == e;
                    assert(map_of(pre)[pre[p].0] == pre[p].1);
                }
                if map_of(pre).contains_key(k) && !session_expired(map_of(pre)[k], now, timeout) {
                    let j = choose|j: int| 0 <= j < pre.len() && pre[j].0 == k;
                    assert(map_of(pre)[pre[j].0] == pre[j].1);
                    let e = pre[j];
                    assert(pre.contains(e)) by {
                        assert(pre[j] == e);
                    }
                    assert(sweep_entries(pre, now, timeout).contains(e));
                    let p = choose|p: int|
                        0 <= p < self.entries@.len() && self.entries@[p] == e;
                    assert(self.entries@[p].0 == k);
                }
            }
            assert forall|k: SessionKey|
                map_of(self.entries@).contains_key(k) implies map_of(self.entries@)[k] == map_of(
                pre,
            )[k] by {
                let j = choose|j: int| 0 <= j < self.entries@.len() && self.entries@[j].0 == k;
                let e = self.entries@[j];
                assert(map_of(self.entries@)[e.0] == e.1);
                assert(sweep_entries(pre, now, timeout).contains(e)) by {
                    assert(self.entries@[j] == e);
                    assert(self.entries@.contains(e));
                }
                assert(pre.contains(e));
                let p = choose|p: int| 0 <= p < pre.len() && pre[p] == e;
                assert(map_of(pre)[pre[p].0] == pre[p].1);
            }
        }
        removed
    }

    /// Cancels every session.
    pub fn shutdown(&mut self)
        ensures
            final(self)@ == Map::<SessionKey, Session>::empty(),
            final(self).wf(),
            final(self).spec_timeout() == old(self).spec_timeout(),
            final(self).spec_poll_interval() == old(self).spec_poll_interval(),
    {
        self.entries.clear();
    }
}

/// A session that has seen no packet since its creation survives every sweep
/// strictly before `created_at + timeout` and is removed by the first sweep
/// at or past that deadline; when sweeps run every `poll_interval` ticks,
/// the removing sweep comes within `[timeout, timeout + poll_interval]`
/// ticks of the session's creation.
pub proof fn lemma_zero_packet_expiry(
    s: Session,
    timeout: u64,
    poll_interval: u64,
    prev_sweep: u64,
    next_sweep: u64,
)
    requires
        s.last_activity == s.created_at,
        prev_sweep < s.created_at + timeout,
        next_sweep == prev_sweep + poll_interval,
        next_sweep >= s.created_at + timeout,
    ensures
        !session_expired(s, prev_sweep, timeout),
        session_expired(s, next_sweep, timeout),
        s.created_at + timeout <= next_sweep < s.created_at + timeout + poll_interval,
{
}

/// One lifecycle event of the session table.
pub enum SessionEvent {
    /// A session created for a key at a time.
    Create(SessionKey, u64),
    /// A session expired and removed.
    Expire(SessionKey),
}

/// Whether a sequence of events is admissible from `m`: every creation hits
/// an absent key and every expiry a present one (in particular, events over
/// non-overlapping keys are admissible).
pub open spec fn events_ok(m: Map<SessionKey, Session>, evs: Seq<SessionEvent>) -> bool
    decreases evs.len(),
{
    if evs.len() == 0 {
        true
    } else {
        match evs[0] {
            SessionEvent::Create(k, t) => !m.contains_key(k) && events_ok(
                m.insert(k, Session { created_at: t, last_activity: t }),
                evs.drop_first(),
            ),
            SessionEvent::Expire(k) => m.contains_key(k) && events_ok(
                m.remove(k),
                evs.drop_first(),
            ),
        }
    }
}

/// The map after a sequence of events.
pub open spec fn run_events(m: Map<SessionKey, Session>, evs: Seq<SessionEvent>) -> Map<
    SessionKey,
    Session,
>
    decreases evs.len(),
{
    if evs.len() == 0 {
        m
    } else {
        match evs[0] {
            SessionEvent::Create(k, t) => run_events(
                m.insert(k, Session { created_at: t, last_activity: t }),
                evs.drop_first(),
            ),
            SessionEvent::Expire(k) => run_events(m.remove(k), evs.drop_first()),
        }
    }
}

/// How many of the events create a session.
pub open spec fn count_creates(evs: Seq<SessionEvent>) -> int
    decreases evs.len(),
{
    if evs.len() == 0 {
        0
    } else {
        (match evs[0] {
            SessionEvent::Create(_, _) => 1int,
            SessionEvent::Expire(_) => 0int,
        }) + count_creates(evs.drop_first())
    }
}

/// How many of the events expire a session.
pub open spec fn count_expires(evs: Seq<SessionEvent>) -> int
    decreases evs.len(),
{
    if evs.len() == 0 {
        0
    } else {
        (match evs[0] {
            SessionEvent::Create(_, _) => 0int,
            SessionEvent::Expire(_) => 1int,
        }) + count_expires(evs.drop_first())
    }
}

/// For every admissible sequence of create and expire events, the size of
/// the session table equals its starting size plus the number of sessions
/// created minus the number expired.
pub proof fn lemma_session_count(m: Map<SessionKey, Session>, evs: Seq<SessionEvent>)
    requires
        m.dom().finite(),
        events_ok(m, evs),
    ensures
        run_events(m, evs).dom().finite(),
        run_events(m, evs).dom().len() + count_expires(evs) == m.dom().len() + count_creates(evs),
    decreases evs.len(),
{
    if evs.len() > 0 {
        match evs[0] {
            SessionEvent::Create(k, t) => {
                let m2 = m.insert(k, Session { created_at: t, last_activity: t });
                assert(m2.dom() =~= m.dom().insert(k));
                assert(m2.dom().len() == m.dom().len() + 1);
                lemma_session_count(m2, evs.drop_first());
            },
            SessionEvent::Expire(k) => {
                let m2 = m.remove(k);
                assert(m2.dom() =~= m.dom().remove(k));
                assert(m2.dom().len() == m.dom().len() - 1);
                lemma_session_count(m2, evs.drop_first());
            },
        }
    }
}

} // verus!
