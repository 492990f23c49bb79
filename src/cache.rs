use vstd::prelude::*;

verus! {

/// A cached response body with the second at which it was stored.
#[derive(Clone, Debug)]
pub struct CacheEntry {
    pub data: Vec<u8>,
    pub timestamp: u64,
    pub size: usize,
}

/// The abstract content of one cache slot: key, bytes and storage time.
pub type Slot = (Seq<char>, Seq<u8>, u64);

/// Bounded response cache keyed by request path.
///
/// Entries are kept in insertion order, oldest first, and eviction always
/// removes the oldest entry (first in, first out). Replacing a key moves it
/// to the newest position.
#[derive(Clone, Debug)]
pub struct AppCache {
    pub entries: Vec<(String, CacheEntry)>,
    pub enabled: bool,
    pub max_capacity: usize,
    pub max_memory: usize,
    pub time_to_live: u64,
    pub current_memory: usize,
}

/// Total number of payload bytes held by `s`.
pub open spec fn mem_of(s: Seq<Slot>) -> nat
    decreases s.len(),
{
    if s.len() == 0 {
        0
    } else {
        mem_of(s.drop_last()) + s.last().1.len()
    }
}

pub open spec fn keys_unique(s: Seq<Slot>) -> bool {
    forall|i: int, j: int| 0 <= i < j < s.len() ==> s[i].0 != s[j].0
}

/// Bytes and storage time recorded for `key`, if any.
pub open spec fn lookup(s: Seq<Slot>, key: Seq<char>) -> Option<(Seq<u8>, u64)>
    decreases s.len(),
{
    if s.len() == 0 {
        None
    } else if s.last().0 == key {
        Some((s.last().1, s.last().2))
    } else {
        lookup(s.drop_last(), key)
    }
}

/// `s` without the slots for `key`, order otherwise kept.
pub open spec fn remove_key(s: Seq<Slot>, key: Seq<char>) -> Seq<Slot>
    decreases s.len(),
{
    if s.len() == 0 {
        s
    } else if s.last().0 == key {
        remove_key(s.drop_last(), key)
    } else {
        remove_key(s.drop_last(), key).push(s.last())
    }
}

/// An entry stored at `stamp` is still served at `now` while its age is
/// below the time to live.
pub open spec fn is_fresh(stamp: u64, now: u64, ttl: u64) -> bool {
    (now as int) - (stamp as int) < ttl as int
}

/// What a lookup of `key` at `now` serves.
pub open spec fn cached(s: Seq<Slot>, key: Seq<char>, now: u64, ttl: u64) -> Option<Seq<u8>> {
    match lookup(s, key) {
        Some(found) => if is_fresh(found.1, now, ttl) {
            Some(found.0)
        } else {
            None
        },
        None => None,
    }
}

/// Drops the oldest slots until `incoming` more bytes fit in `max` (or none
/// are left).
pub open spec fn evict_to_fit(s: Seq<Slot>, incoming: nat, max: nat) -> Seq<Slot>
    decreases s.len(),
{
    if s.len() == 0 || mem_of(s) + incoming <= max {
        s
    } else {
        evict_to_fit(s.drop_first(), incoming, max)
    }
}

/// Drops the oldest slot when the store is full and `key` is new.
pub open spec fn make_room(s: Seq<Slot>, key: Seq<char>, cap: nat) -> Seq<Slot> {
    if s.len() > 0 && s.len() >= cap && lookup(s, key) is None {
        s.drop_first()
    } else {
        s
    }
}

/// The slots after storing `data` under `key` at `now`.
pub open spec fn stored(
    s: Seq<Slot>,
    key: Seq<char>,
    data: Seq<u8>,
    now: u64,
    cap: nat,
    max: nat,
) -> Seq<Slot> {
    remove_key(make_room(evict_to_fit(s, data.len(), max), key, cap), key).push((key, data, now))
}



proof fn lemma_mem_remove(s: Seq<Slot>, i: int)
    requires
        0 <= i < s.len(),
    ensures
        mem_of(s.remove(i)) + s[i].1.len() == mem_of(s),
    decreases s.len(),
{
    if i == s.len() - 1 {
        assert(s.remove(i) =~= s.drop_last());
    } else {
        lemma_mem_remove(s.drop_last(), i);
        assert(s.remove(i).drop_last() =~= s.drop_last().remove(i));
        assert(s.remove(i).last() == s.last());
    }
}

proof fn lemma_mem_drop_first(s: Seq<Slot>)
    requires
        s.len() > 0,
    ensures
        mem_of(s.drop_first()) + s[0].1.len() == mem_of(s),
{
    lemma_mem_remove(s, 0);
    assert(s.remove(0) =~= s.drop_first());
}

proof fn lemma_lookup_none(s: Seq<Slot>, key: Seq<char>)
    ensures
        lookup(s, key) is None <==> forall|j: int| 0 <= j < s.len() ==> s[j].0 != key,
    decreases s.len(),
{
    if s.len() > 0 {
        lemma_lookup_none(s.drop_last(), key);
        if lookup(s, key) is None {
            assert forall|j: int| 0 <= j < s.len() implies s[j].0 != key by {
                if j < s.len() - 1 {
                    assert(s.drop_last()[j] == s[j]);
                }
            }
        } else if s.last().0 != key {
            let j = choose|j: int| 0 <= j < s.drop_last().len() && s.drop_last()[j].0 == key;
            assert(s[j].0 == key);
        }
    }
}

proof fn lemma_lookup_some(s: Seq<Slot>, key: Seq<char>) -> (i: int)
    requires
        lookup(s, key) is Some,
    ensures
        0 <= i < s.len(),
        s[i].0 == key,
{
    lemma_lookup_none(s, key);
    choose|i: int| 0 <= i < s.len() && s[i].0 == key
}

proof fn lemma_remove_key_absent(s: Seq<Slot>, key: Seq<char>)
    requires
        lookup(s, key) is None,
    ensures
        remove_key(s, key) == s,
    decreases s.len(),
{
    if s.len() > 0 {
        lemma_remove_key_absent(s.drop_last(), key);
        assert(s.drop_last().push(s.last()) =~= s);
    }
}

proof fn lemma_remove_key_at(s: Seq<Slot>, key: Seq<char>, i: int)
    requires
        keys_unique(s),
        0 <= i < s.len(),
        s[i].0 == key,
    ensures
        remove_key(s, key) == s.remove(i),
    decreases s.len(),
{
    if i == s.len() - 1 {
        lemma_lookup_none(s.drop_last(), key);
        lemma_remove_key_absent(s.drop_last(), key);
        assert(s.remove(i) =~= s.drop_last());
    } else {
        lemma_remove_key_at(s.drop_last(), key, i);
        assert(s.remove(i) =~= s.drop_last().remove(i).push(s.last()));
    }
}

/// Removing `key` from a store with unique keys leaves unique keys, no slot
/// for `key`, and at most as many slots and bytes.
proof fn lemma_remove_key(s: Seq<Slot>, key: Seq<char>)
    requires
        keys_unique(s),
    ensures
        keys_unique(remove_key(s, key)),
        lookup(remove_key(s, key), key) is None,
        remove_key(s, key).len() <= s.len(),
        lookup(s, key) is Some ==> remove_key(s, key).len() == s.len() - 1,
        mem_of(remove_key(s, key)) <= mem_of(s),
{
    if lookup(s, key) is Some {
        let i = lemma_lookup_some(s, key);
        lemma_remove_key_at(s, key, i);
        lemma_mem_remove(s, i);
        let r = s.remove(i);
        assert forall|a: int, b: int| 0 <= a < b < r.len() implies r[a].0 != r[b].0 by {
            let a2 = if a < i { a } else { a + 1 };
            let b2 = if b < i { b } else { b + 1 };
            assert(r[a] == s[a2] && r[b] == s[b2]);
        }
        assert forall|j: int| 0 <= j < r.len() implies r[j].0 != key by {
            let j2 = if j < i { j } else { j + 1 };
            assert(r[j] == s[j2]);
        }
        lemma_lookup_none(r, key);
    } else {
        lemma_remove_key_absent(s, key);
    }
}

proof fn lemma_evict_to_fit(s: Seq<Slot>, incoming: nat, max: nat)
    requires
        keys_unique(s),
    ensures
        keys_unique(evict_to_fit(s, incoming, max)),
        evict_to_fit(s, incoming, max).len() <= s.len(),
        incoming <= max ==> mem_of(evict_to_fit(s, incoming, max)) + incoming <= max,
    decreases s.len(),
{
    if !(s.len() == 0 || mem_of(s) + incoming <= max) {
        let t = s.drop_first();
        assert forall|a: int, b: int| 0 <= a < b < t.len() implies t[a].0 != t[b].0 by {
            assert(t[a] == s[a + 1] && t[b] == s[b + 1]);
        }
        lemma_evict_to_fit(t, incoming, max);
    }
}

/// Storing keeps keys unique, the byte total within `max` and the slot count
/// within the entry limit.
proof fn lemma_stored(
    s: Seq<Slot>,
    key: Seq<char>,
    data: Seq<u8>,
    now: u64,
    cap: nat,
    max: nat,
)
    requires
        keys_unique(s),
        cap >= 1,
        s.len() <= cap,
        data.len() <= max,
    ensures
        keys_unique(stored(s, key, data, now, cap, max)),
        mem_of(stored(s, key, data, now, cap, max)) <= max,
        stored(s, key, data, now, cap, max).len() <= cap,
{
    let s1 = evict_to_fit(s, data.len(), max);
    lemma_evict_to_fit(s, data.len(), max);
    let s2 = make_room(s1, key, cap);
    if s2 != s1 {
        lemma_mem_drop_first(s1);
        assert forall|a: int, b: int| 0 <= a < b < s2.len() implies s2[a].0 != s2[b].0 by {
            assert(s2[a] == s1[a + 1] && s2[b] == s1[b + 1]);
        }
        lemma_lookup_none(s1, key);
        assert forall|j: int| 0 <= j < s2.len() implies s2[j].0 != key by {
            assert(s2[j] == s1[j + 1]);
        }
        lemma_lookup_none(s2, key);
    }
    lemma_remove_key(s2, key);
    let s3 = remove_key(s2, key);
    let r = s3.push((key, data, now));
    lemma_lookup_none(s3, key);
    assert forall|a: int, b: int| 0 <= a < b < r.len() implies r[a].0 != r[b].0 by {
        if b < s3.len() {
            assert(r[a] == s3[a] && r[b] == s3[b]);
        } else {
            assert(r[a] == s3[a]);
        }
    }
    assert(r.drop_last() =~= s3);
}

impl AppCache {
    pub open spec fn view(&self) -> Seq<Slot> {
        self.entries@.map_values(|e: (String, CacheEntry)| (e.0@, e.1.data@, e.1.timestamp))
    }

    pub open spec fn wf(&self) -> bool {
        &&& keys_unique(self@)
        &&& forall|i: int|
            0 <= i < self.entries@.len() ==> #[trigger] self.entries@[i].1.size
                == self.entries@[i].1.data@.len()
        &&& self.current_memory == mem_of(self@)
        &&& mem_of(self@) <= self.max_memory
        &&& self@.len() <= self.max_capacity
    }
}

/// A lookup made while the stored entry is fresh serves exactly the bytes
/// that were stored.
pub proof fn law_set_then_get(
    s: Seq<Slot>,
    key: Seq<char>,
    data: Seq<u8>,
    stamp: u64,
    now: u64,
    cap: nat,
    max: nat,
    ttl: u64,
)
    requires
        is_fresh(stamp, now, ttl),
    ensures
        cached(stored(s, key, data, stamp, cap, max), key, now, ttl) == Some(data),
        after_lookup(stored(s, key, data, stamp, cap, max), key, now, ttl) == stored(
            s,
            key,
            data,
            stamp,
            cap,
            max,
        ),
{
}

/// Once the time to live has elapsed since an entry was stored, a lookup
/// misses and purges the entry.
pub proof fn law_expired_entry_misses(
    s: Seq<Slot>,
    key: Seq<char>,
    data: Seq<u8>,
    stamp: u64,
    now: u64,
    cap: nat,
    max: nat,
    ttl: u64,
)
    requires
        now >= stamp + ttl,
    ensures
        cached(stored(s, key, data, stamp, cap, max), key, now, ttl) is None,
        lookup(after_lookup(stored(s, key, data, stamp, cap, max), key, now, ttl), key) is None,
{
    let t = stored(s, key, data, stamp, cap, max);
    lemma_remove_key_none_everywhere(t, key);
}

proof fn lemma_remove_key_none_everywhere(s: Seq<Slot>, key: Seq<char>)
    ensures
        lookup(remove_key(s, key), key) is None,
    decreases s.len(),
{
    if s.len() > 0 {
        lemma_remove_key_none_everywhere(s.drop_last(), key);
        let r = remove_key(s.drop_last(), key);
        assert(r.push(s.last()).drop_last() =~= r);
    }
}

/// Storing into a well-formed cache, whatever the size of the data, never
/// takes the byte total above the memory budget nor the entry count above
/// the capacity.
pub proof fn law_store_stays_within_bounds(c: AppCache, key: Seq<char>, data: Seq<u8>, now: u64)
    requires
        c.wf(),
    ensures
        mem_of(c.after_set(key, data, now)) <= c.max_memory,
        c.after_set(key, data, now).len() <= c.max_capacity,
{
    if c.accepts(data.len()) {
        lemma_stored(c@, key, data, now, c.max_capacity as nat, c.max_memory as nat);
    }
}

/// What a lookup of `key` at `now` leaves behind: an expired slot is purged.
pub open spec fn after_lookup(s: Seq<Slot>, key: Seq<char>, now: u64, ttl: u64) -> Seq<Slot> {
    match lookup(s, key) {
        Some(found) => if is_fresh(found.1, now, ttl) {
            s
        } else {
            remove_key(s, key)
        },
        None => s,
    }
}

impl AppCache {
    /// The settings fixed at construction are the same in both.
    pub open spec fn same_settings(&self, other: &AppCache) -> bool {
        &&& self.enabled == other.enabled
        &&& self.max_capacity == other.max_capacity
        &&& self.max_memory == other.max_memory
        &&& self.time_to_live == other.time_to_live
    }

    /// Whether storing `size` bytes is accepted: the cache is enabled, can
    /// hold at least one entry, and the data alone fits the memory budget.
    pub open spec fn accepts(&self, size: nat) -> bool {
        self.enabled && self.max_capacity > 0 && size <= self.max_memory
    }

    /// The slots after an attempt to store `data` under `key` at `now`.
    pub open spec fn after_set(&self, key: Seq<char>, data: Seq<u8>, now: u64) -> Seq<Slot> {
        if self.accepts(data.len()) {
            stored(self@, key, data, now, self.max_capacity as nat, self.max_memory as nat)
        } else {
            self@
        }
    }

    /// An empty cache with the default memory budget.
    pub fn new(enabled: bool, max_capacity: usize, time_to_live: u64) -> (r: AppCache)
        ensures
            r.wf(),
            r@.len() == 0,
            r.enabled == enabled,
            r.max_capacity == max_capacity,
            r.max_memory == crate::config::DEFAULT_MAX_MEMORY,
            r.time_to_live == time_to_live,
    {
        AppCache::with_memory_limit(
            enabled,
            max_capacity,
            crate::config::DEFAULT_MAX_MEMORY,
            time_to_live,
        )
    }

    /// An empty cache with the given bounds.
    pub fn with_memory_limit(
        enabled: bool,
        max_capacity: usize,
        max_memory: usize,
        time_to_live: u64,
    ) -> (r: AppCache)
        ensures
            r.wf(),
            r@.len() == 0,
            r.enabled == enabled,
            r.max_capacity == max_capacity,
            r.max_memory == max_memory,
            r.time_to_live == time_to_live,
    {
        let r = AppCache {
            entries: Vec::new(),
            enabled,
            max_capacity,
            max_memory,
            time_to_live,
            current_memory: 0,
        };
        proof {
            assert(r@ =~= Seq::<Slot>::empty());
        }
        r
    }

    /// Index of the slot for `key`, if there is one.
    fn position(&self, key: &String) -> (r: Option<usize>)
        ensures
            match r {
                Some(i) => {
                    &&& i < self@.len()
                    &&& self@[i as int].0 == key@
                    &&& lookup(self@, key@) == Some((self@[i as int].1, self@[i as int].2))
                },
                None => lookup(self@, key@) is None,
            },
    {
        let mut i: usize = self.entries.len();
        proof {
            assert(self@.take(i as int) =~= self@);
        }
        while i > 0
            invariant
                i <= self.entries@.len(),
                self@.len() == self.entries@.len(),
                lookup(self@, key@) == lookup(self@.take(i as int), key@),
            decreases i,
        {
            let ghost t = self@.take(i as int);
            assert(t.last() == self@[i - 1]);
            if self.entries[i - 1].0 == *key {
                return Some(i - 1);
            }
            assert(t.drop_last() =~= self@.take(i - 1));
            i = i - 1;
        }
        None
    }

    /// Removes the slot at `i`.
    fn remove_at(&mut self, i: usize)
        requires
            old(self).wf(),
            i < old(self)@.len(),
        ensures
            final(self).wf(),
            final(self).same_settings(old(self)),
            final(self)@ == old(self)@.remove(i as int),
            final(self)@ == remove_key(old(self)@, old(self)@[i as int].0),
    {
        let ghost s = self@;
        proof {
            lemma_remove_key_at(s, s[i as int].0, i as int);
            lemma_remove_key(s, s[i as int].0);
            lemma_mem_remove(s, i as int);
        }
        let ghost before = self.entries@;
        let removed = self.entries.remove(i);
        assert(removed.1.size == before[i as int].1.size);
        self.current_memory = self.current_memory - removed.1.size;
        assert(self@ =~= s.remove(i as int));
        assert forall|j: int| 0 <= j < self.entries@.len() implies #[trigger] self.entries@[j].1.size
            == self.entries@[j].1.data@.len() by {
            let j2 = if j < i { j } else { j + 1 };
            assert(self.entries@[j] == before[j2]);
        }
    }

    /// The cached bytes for `key` if they are still fresh at `now`; an
    /// expired entry is removed and reported as a miss. A disabled cache
    /// always misses.
    pub fn get_at(&mut self, key: &str, now: u64) -> (r: Option<Vec<u8>>)
        requires
            old(self).wf(),
        ensures
            final(self).wf(),
            final(self).same_settings(old(self)),
            !old(self).enabled ==> r is None && final(self)@ == old(self)@,
            old(self).enabled ==> match r {
                Some(v) => cached(old(self)@, key@, now, old(self).time_to_live) == Some(v@),
                None => cached(old(self)@, key@, now, old(self).time_to_live) is None,
            },
            old(self).enabled ==> final(self)@ == after_lookup(
                old(self)@,
                key@,
                now,
                old(self).time_to_live,
            ),
    {
        if !self.enabled {
            return None;
        }
        let owned = key.to_owned();
        match self.position(&owned) {
            None => None,
            Some(i) => {
                let stamp = self.entries[i].1.timestamp;
                if now < stamp || now - stamp < self.time_to_live {
                    let data = self.entries[i].1.data.clone();
                    assert(data@ =~= self@[i as int].1);
                    Some(data)
                } else {
                    self.remove_at(i);
                    None
                }
            },
        }
    }

    /// Stores `data` under `key` at `now`. Refused (and nothing changes) when
    /// the cache is disabled, its capacity is zero, or `data` alone exceeds
    /// the memory budget.
    /// Otherwise the oldest entries are evicted until the new bytes fit, one
    /// more when the store is full and `key` is new, and any earlier entry
    /// for `key` is replaced.
    pub fn set_at(&mut self, key: String, data: Vec<u8>, now: u64) -> (r: bool)
        requires
            old(self).wf(),
        ensures
            final(self).wf(),
            final(self).same_settings(old(self)),
            r == old(self).accepts(data@.len()),
            final(self)@ == old(self).after_set(key@, data@, now),
    {
        if !self.enabled || self.max_capacity == 0 {
            return false;
        }
        let size = data.len();
        if size > self.max_memory {
            return false;
        }
        let ghost s0 = self@;
        let ghost start = *self;
        while self.entries.len() > 0 && self.current_memory > self.max_memory - size
            invariant
                self.wf(),
                self.same_settings(&start),
                size == data@.len(),
                size <= self.max_memory,
                evict_to_fit(self@, size as nat, self.max_memory as nat) == evict_to_fit(
                    s0,
                    size as nat,
                    self.max_memory as nat,
                ),
            decreases self.entries@.len(),
        {
            let ghost before = self@;
            self.remove_at(0);
            assert(self@ =~= before.drop_first());
        }
        let ghost s1 = self@;
        assert(s1 == evict_to_fit(s0, size as nat, self.max_memory as nat));
        assert(mem_of(s1) + size <= self.max_memory) by {
            if s1.len() == 0 {
                assert(mem_of(s1) == 0);
            }
        }
        let pos = self.position(&key);
        if self.entries.len() > 0 && self.entries.len() >= self.max_capacity && pos.is_none() {
            let ghost before = self@;
            self.remove_at(0);
            assert(self@ =~= before.drop_first());
            proof {
                lemma_mem_drop_first(before);
            }
        }
        let ghost s2 = self@;
        assert(mem_of(s2) <= mem_of(s1));
        assert(s2 == make_room(s1, key@, self.max_capacity as nat));
        match self.position(&key) {
            Some(j) => {
                self.remove_at(j);
            },
            None => {
                proof {
                    lemma_remove_key_absent(s2, key@);
                }
            },
        }
        let ghost s3 = self@;
        assert(s3 == remove_key(s2, key@));
        proof {
            lemma_remove_key(s2, key@);
            lemma_stored(s0, key@, data@, now, self.max_capacity as nat, self.max_memory as nat);
        }
        let ghost entries3 = self.entries@;
        assert(forall|j: int| 0 <= j < entries3.len() ==> #[trigger] entries3[j].1.size == entries3[j].1.data@.len());
        self.current_memory = self.current_memory + size;
        self.entries.push((key, CacheEntry { data, timestamp: now, size }));
        assert(self@ =~= s3.push((key@, data@, now)));
        assert(self@.drop_last() =~= s3);
        assert forall|j: int| 0 <= j < self.entries@.len() implies #[trigger] self.entries@[j].1.size
            == self.entries@[j].1.data@.len() by {
            if j < entries3.len() {
                assert(self.entries@[j] == entries3[j]);
                assert(entries3[j].1.size == entries3[j].1.data@.len());
            } else {
                assert(self.entries@[j].1.size == size);
            }
        }
        true
    }

    /// Like `get_at`, at the current time of the system clock.
    pub fn get(&mut self, key: &str) -> (r: Option<Vec<u8>>)
        requires
            old(self).wf(),
        ensures
            final(self).wf(),
            final(self).same_settings(old(self)),
            !old(self).enabled ==> r is None && final(self)@ == old(self)@,
            old(self).enabled ==> exists|now: u64|
                {
                    &&& match r {
                        Some(v) => cached(old(self)@, key@, now, old(self).time_to_live) == Some(v@),
                        None => cached(old(self)@, key@, now, old(self).time_to_live) is None,
                    }
                    &&& final(self)@ == after_lookup(old(self)@, key@, now, old(self).time_to_live)
                },
    {
        let now = crate::clock::unix_now();
        self.get_at(key, now)
    }

    /// Like `set_at`, stamped with the current time of the system clock.
    pub fn set(&mut self, key: String, data: Vec<u8>) -> (r: bool)
        requires
            old(self).wf(),
        ensures
            final(self).wf(),
            final(self).same_settings(old(self)),
            r == old(self).accepts(data@.len()),
            exists|now: u64| final(self)@ == old(self).after_set(key@, data@, now),
    {
        let now = crate::clock::unix_now();
        self.set_at(key, data, now)
    }

    /// Removes the entry for `key`; true when there was one.
    pub fn remove(&mut self, key: &str) -> (r: bool)
        requires
            old(self).wf(),
        ensures
            final(self).wf(),
            final(self).same_settings(old(self)),
            r == lookup(old(self)@, key@) is Some,
            final(self)@ == remove_key(old(self)@, key@),
    {
        let owned = key.to_owned();
        match self.position(&owned) {
            Some(i) => {
                self.remove_at(i);
                true
            },
            None => {
                proof {
                    lemma_remove_key_absent(self@, key@);
                }
                false
            },
        }
    }

    /// Payload bytes currently held.
    pub fn get_memory_usage(&self) -> (r: usize)
        requires
            self.wf(),
        ensures
            r == mem_of(self@),
    {
        self.current_memory
    }

    /// Number of entries currently held.
    pub fn get_entry_count(&self) -> (r: usize)
        ensures
            r == self@.len(),
    {
        self.entries.len()
    }
}

} // verus!
