use vstd::prelude::*;

verus! {

/// Length of one rate-limit window, in seconds.
pub const WINDOW_SECS: u64 = 60;

/// Requests counted for one client in its current window.
#[derive(Clone, Copy, Debug, PartialEq, Eq)]
pub struct RateLimitEntry {
    pub count: u32,
    pub timestamp: u64,
}

/// The abstract state of one client: key, count and window start.
pub type Window = (Seq<char>, u32, u64);

/// Fixed-window limiter of requests per client key.
#[derive(Clone, Debug)]
pub struct RateLimiter {
    pub limits: Vec<(String, RateLimitEntry)>,
    pub enabled: bool,
    pub requests_per_minute: u32,
}

pub open spec fn client_keys_unique(s: Seq<Window>) -> bool {
    forall|i: int, j: int| 0 <= i < j < s.len() ==> s[i].0 != s[j].0
}

/// Count and window start recorded for `key`, if any.
pub open spec fn window_of(s: Seq<Window>, key: Seq<char>) -> Option<(u32, u64)>
    decreases s.len(),
{
    if s.len() == 0 {
        None
    } else if s.last().0 == key {
        Some((s.last().1, s.last().2))
    } else {
        window_of(s.drop_last(), key)
    }
}

/// The decision for one request at `now` and the client's state after it.
pub open spec fn next_window(current: Option<(u32, u64)>, now: u64, limit: u32) -> (bool, (u32, u64)) {
    match current {
        None => (true, (1, now)),
        Some(w) => if now as int >= w.1 as int + WINDOW_SECS as int {
            (true, (1, now))
        } else if w.0 >= limit {
            (false, w)
        } else {
            (true, ((w.0 + 1) as u32, w.1))
        },
    }
}

/// The client's state after requests at each of `times`, in order.
pub open spec fn replay(start: Option<(u32, u64)>, times: Seq<u64>, limit: u32) -> Option<(u32, u64)>
    decreases times.len(),
{
    if times.len() == 0 {
        start
    } else {
        Some(next_window(replay(start, times.drop_last(), limit), times.last(), limit).1)
    }
}

proof fn lemma_window_at(s: Seq<Window>, key: Seq<char>, i: int)
    requires
        client_keys_unique(s),
        0 <= i < s.len(),
        s[i].0 == key,
    ensures
        window_of(s, key) == Some((s[i].1, s[i].2)),
    decreases s.len(),
{
    if i < s.len() - 1 {
        lemma_window_at(s.drop_last(), key, i);
    }
}

proof fn lemma_window_update(s: Seq<Window>, i: int, w: Window, other: Seq<char>)
    requires
        0 <= i < s.len(),
        w.0 == s[i].0,
        other != w.0,
    ensures
        window_of(s.update(i, w), other) == window_of(s, other),
    decreases s.len(),
{
    if i < s.len() - 1 {
        lemma_window_update(s.drop_last(), i, w, other);
        assert(s.update(i, w).drop_last() =~= s.drop_last().update(i, w));
    } else {
        assert(s.update(i, w).drop_last() =~= s.drop_last());
    }
}

proof fn lemma_window_absent(s: Seq<Window>, key: Seq<char>, j: int)
    requires
        window_of(s, key) is None,
        0 <= j < s.len(),
    ensures
        s[j].0 != key,
    decreases s.len(),
{
    if j < s.len() - 1 {
        lemma_window_absent(s.drop_last(), key, j);
    }
}

proof fn lemma_replay_one_window(times: Seq<u64>, limit: u32, i: int)
    requires
        limit >= 1,
        1 <= i <= times.len(),
        forall|j: int| 0 <= j < times.len() ==> times[0] <= #[trigger] times[j] < times[0] + WINDOW_SECS,
    ensures
        replay(None, times.take(i), limit) == Some(
            ((if i <= limit {
                i
            } else {
                limit as int
            }) as u32, times[0]),
        ),
    decreases i,
{
    let t = times.take(i);
    assert(t.drop_last() =~= times.take(i - 1));
    assert(t.last() == times[i - 1]);
    assert(times[0] <= times[i - 1] < times[0] + WINDOW_SECS);
    if i > 1 {
        lemma_replay_one_window(times, limit, i - 1);
        let prev = replay(None, times.take(i - 1), limit);
        assert(prev == Some(
            ((if i - 1 <= limit {
                i - 1
            } else {
                limit as int
            }) as u32, times[0]),
        ));
        assert(replay(None, t, limit) == Some(next_window(prev, times[i - 1], limit).1));
        if i - 1 < limit {
            assert(next_window(prev, times[i - 1], limit).1 == ((i as u32), times[0]));
        } else {
            assert(next_window(prev, times[i - 1], limit).1 == (limit, times[0]));
        }
    } else {
        assert(times.take(0) =~= Seq::<u64>::empty());
    }
}

/// Within a window opened by a client's first request, exactly the first
/// `limit` requests are allowed and the rest are refused; a request made a
/// full window after the first one is allowed again.
pub proof fn law_fixed_window_quota(times: Seq<u64>, limit: u32, later: u64)
    requires
        limit >= 1,
        times.len() >= 1,
        forall|j: int| 0 <= j < times.len() ==> times[0] <= #[trigger] times[j] < times[0] + WINDOW_SECS,
        later >= times[0] + WINDOW_SECS,
    ensures
        forall|i: int|
            0 <= i < times.len() ==> #[trigger] next_window(replay(None, times.take(i), limit), times[i], limit).0
                == (i < limit),
        next_window(replay(None, times, limit), later, limit).0,
{
    assert forall|i: int| 0 <= i < times.len() implies #[trigger] next_window(
        replay(None, times.take(i), limit),
        times[i],
        limit,
    ).0 == (i < limit) by {
        if i == 0 {
            assert(times.take(0) =~= Seq::<u64>::empty());
        } else {
            lemma_replay_one_window(times, limit, i);
        }
    }
    lemma_replay_one_window(times, limit, times.len() as int);
    assert(times.take(times.len() as int) =~= times);
}

/// The window that opened at `start` is still open at `now`.
pub open spec fn window_open(start: u64, now: u64) -> bool {
    (now as int) < start as int + WINDOW_SECS as int
}

/// `s` without the clients whose window has closed by `now`, order kept.
pub open spec fn swept(s: Seq<Window>, now: u64) -> Seq<Window>
    decreases s.len(),
{
    if s.len() == 0 {
        s
    } else if window_open(s.last().2, now) {
        swept(s.drop_last(), now).push(s.last())
    } else {
        swept(s.drop_last(), now)
    }
}

/// What a sweep at `now` leaves of a client's state.
pub open spec fn kept_window(w: Option<(u32, u64)>, now: u64) -> Option<(u32, u64)> {
    match w {
        Some(x) => if window_open(x.1, now) {
            Some(x)
        } else {
            None
        },
        None => None,
    }
}

proof fn lemma_window_none(s: Seq<Window>, key: Seq<char>)
    requires
        forall|j: int| 0 <= j < s.len() ==> s[j].0 != key,
    ensures
        window_of(s, key) is None,
    decreases s.len(),
{
    if s.len() > 0 {
        lemma_window_none(s.drop_last(), key);
    }
}

proof fn lemma_swept(s: Seq<Window>, now: u64)
    requires
        client_keys_unique(s),
    ensures
        client_keys_unique(swept(s, now)),
        forall|key: Seq<char>|
            #[trigger] window_of(swept(s, now), key) == kept_window(window_of(s, key), now),
    decreases s.len(),
{
    if s.len() > 0 {
        let d = s.drop_last();
        let last = s.last();
        assert forall|a: int, b: int| 0 <= a < b < d.len() implies d[a].0 != d[b].0 by {
            assert(d[a] == s[a] && d[b] == s[b]);
        }
        lemma_swept(d, now);
        assert forall|j: int| 0 <= j < d.len() implies d[j].0 != last.0 by {
            assert(d[j] == s[j]);
        }
        lemma_window_none(d, last.0);
        let r = swept(s, now);
        let sd = swept(d, now);
        assert forall|key: Seq<char>| #[trigger] window_of(r, key) == kept_window(window_of(s, key), now) by {
            if window_open(last.2, now) {
                assert(r.drop_last() =~= sd);
                assert(r.last() == last);
            }
        }
        if window_open(last.2, now) {
            assert(r.drop_last() =~= sd);
            assert(window_of(sd, last.0) is None);
            assert forall|a: int, b: int| 0 <= a < b < r.len() implies r[a].0 != r[b].0 by {
                if b == sd.len() {
                    lemma_window_absent(sd, last.0, a);
                    assert(r[a] == sd[a]);
                } else {
                    assert(r[a] == sd[a] && r[b] == sd[b]);
                }
            }
        }
    }
}

/// A sweep changes no later decision: a client whose window has closed is
/// treated on its next request exactly as a client never seen.
pub proof fn law_sweep_keeps_decisions(
    s: Seq<Window>,
    now: u64,
    later: u64,
    key: Seq<char>,
    limit: u32,
)
    requires
        client_keys_unique(s),
        now <= later,
    ensures
        next_window(window_of(swept(s, now), key), later, limit) == next_window(
            window_of(s, key),
            later,
            limit,
        ),
{
    lemma_swept(s, now);
}

impl RateLimiter {
    pub open spec fn view(&self) -> Seq<Window> {
        self.limits@.map_values(|e: (String, RateLimitEntry)| (e.0@, e.1.count, e.1.timestamp))
    }

    pub open spec fn wf(&self) -> bool {
        client_keys_unique(self@)
    }

    /// A limiter with no client recorded yet.
    pub fn new(enabled: bool, requests_per_minute: u32) -> (r: RateLimiter)
        ensures
            r.wf(),
            r@.len() == 0,
            r.enabled == enabled,
            r.requests_per_minute == requests_per_minute,
    {
        let r = RateLimiter { limits: Vec::new(), enabled, requests_per_minute };
        assert(r@ =~= Seq::<Window>::empty());
        r
    }

    /// Index of the state for `key`, if there is one.
    fn position(&self, key: &String) -> (r: Option<usize>)
        ensures
            match r {
                Some(i) => {
                    &&& i < self@.len()
                    &&& self@[i as int].0 == key@
                    &&& window_of(self@, key@) == Some((self@[i as int].1, self@[i as int].2))
                },
                None => window_of(self@, key@) is None,
            },
    {
        let mut i: usize = self.limits.len();
        proof {
            assert(self@.take(i as int) =~= self@);
        }
        while i > 0
            invariant
                i <= self.limits@.len(),
                self@.len() == self.limits@.len(),
                window_of(self@, key@) == window_of(self@.take(i as int), key@),
            decreases i,
        {
            let ghost t = self@.take(i as int);
            assert(t.last() == self@[i - 1]);
            if self.limits[i - 1].0 == *key {
                return Some(i - 1);
            }
            assert(t.drop_last() =~= self@.take(i - 1));
            i = i - 1;
        }
        None
    }

    /// Whether a request from `key` at `now` (seconds) is allowed, counting
    /// it. A disabled limiter allows everything and records nothing. A
    /// client's first request, and the first one at least a window after
    /// its window opened, opens a new window with a count of one; within a
    /// window a request is allowed, and counted, while the count is below
    /// the limit. Other clients are not touched.
    pub fn is_allowed_at(&mut self, key: &str, now: u64) -> (r: bool)
        requires
            old(self).wf(),
        ensures
            final(self).wf(),
            final(self).enabled == old(self).enabled,
            final(self).requests_per_minute == old(self).requests_per_minute,
            !old(self).enabled ==> r && final(self)@ == old(self)@,
            old(self).enabled ==> r == next_window(
                window_of(old(self)@, key@),
                now,
                old(self).requests_per_minute,
            ).0,
            old(self).enabled ==> window_of(final(self)@, key@) == Some(
                next_window(window_of(old(self)@, key@), now, old(self).requests_per_minute).1,
            ),
            forall|other: Seq<char>|
                other != key@ ==> window_of(final(self)@, other) == window_of(old(self)@, other),
    {
        if !self.enabled {
            return true;
        }
        let owned = key.to_owned();
        let ghost s = self@;
        match self.position(&owned) {
            None => {
                let ghost before = self.limits@;
                self.limits.push((owned, RateLimitEntry { count: 1, timestamp: now }));
                assert(self@ =~= s.push((key@, 1u32, now)));
                assert(self@.drop_last() =~= s);
                assert forall|i: int, j: int| 0 <= i < j < self@.len() implies self@[i].0
                    != self@[j].0 by {
                    if j == s.len() {
                        lemma_window_absent(s, key@, i);
                    }
                }
                true
            },
            Some(i) => {
                let entry = self.limits[i].1;
                let (allowed, next) = if now >= entry.timestamp && now - entry.timestamp
                    >= WINDOW_SECS {
                    (true, RateLimitEntry { count: 1, timestamp: now })
                } else if entry.count >= self.requests_per_minute {
                    (false, entry)
                } else {
                    (true, RateLimitEntry { count: entry.count + 1, timestamp: entry.timestamp })
                };
                self.limits[i].1 = next;
                let ghost w = (key@, next.count, next.timestamp);
                assert(self@ =~= s.update(i as int, w));
                proof {
                    assert forall|other: Seq<char>| other != key@ implies window_of(self@, other)
                        == window_of(s, other) by {
                        lemma_window_update(s, i as int, w, other);
                    }
                    assert forall|a: int, b: int| 0 <= a < b < self@.len() implies self@[a].0
                        != self@[b].0 by {
                        assert(self@[a].0 == s[a].0 && self@[b].0 == s[b].0);
                    }
                    lemma_window_at(self@, key@, i as int);
                }
                allowed
            },
        }
    }

    /// Forgets the clients whose window has closed by `now`; returns how
    /// many were forgotten.
    pub fn sweep_at(&mut self, now: u64) -> (r: usize)
        requires
            old(self).wf(),
        ensures
            final(self).wf(),
            final(self).enabled == old(self).enabled,
            final(self).requests_per_minute == old(self).requests_per_minute,
            final(self)@ == swept(old(self)@, now),
            r == old(self)@.len() - final(self)@.len(),
            forall|key: Seq<char>|
                #[trigger] window_of(final(self)@, key) == kept_window(
                    window_of(old(self)@, key),
                    now,
                ),
    {
        let ghost s = self@;
        let mut kept: Vec<(String, RateLimitEntry)> = Vec::new();
        let mut i: usize = 0;
        let n = self.limits.len();
        assert(s.take(0) =~= Seq::<Window>::empty());
        while i < n
            invariant
                n == self.limits@.len(),
                s == self@,
                i <= n,
                kept@.map_values(|e: (String, RateLimitEntry)| (e.0@, e.1.count, e.1.timestamp))
                    == swept(s.take(i as int), now),
                kept@.len() <= i,
            decreases n - i,
        {
            let ghost before = kept@;
            let ghost t = s.take(i + 1);
            assert(t.drop_last() =~= s.take(i as int));
            assert(t.last() == s[i as int]);
            let start = self.limits[i].1.timestamp;
            if now < start || now - start < WINDOW_SECS {
                kept.push((self.limits[i].0.clone(), self.limits[i].1));
                assert(kept@.map_values(
                    |e: (String, RateLimitEntry)| (e.0@, e.1.count, e.1.timestamp),
                ) =~= before.map_values(
                    |e: (String, RateLimitEntry)| (e.0@, e.1.count, e.1.timestamp),
                ).push(s[i as int]));
            }
            i = i + 1;
        }
        assert(s.take(n as int) =~= s);
        proof {
            lemma_swept(s, now);
        }
        let removed = n - kept.len();
        self.limits = kept;
        removed
    }

    /// Like `is_allowed_at`, at the current time of the system clock.
    pub fn is_allowed(&mut self, key: &str) -> (r: bool)
        requires
            old(self).wf(),
        ensures
            final(self).wf(),
            final(self).enabled == old(self).enabled,
            final(self).requests_per_minute == old(self).requests_per_minute,
            !old(self).enabled ==> r && final(self)@ == old(self)@,
            old(self).enabled ==> exists|now: u64|
                {
                    &&& r == next_window(window_of(old(self)@, key@), now, old(self).requests_per_minute).0
                    &&& window_of(final(self)@, key@) == Some(
                        next_window(window_of(old(self)@, key@), now, old(self).requests_per_minute).1,
                    )
                },
            forall|other: Seq<char>|
                other != key@ ==> window_of(final(self)@, other) == window_of(old(self)@, other),
    {
        let now = crate::clock::unix_now();
        self.is_allowed_at(key, now)
    }
}

} // verus!
