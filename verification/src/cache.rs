//! The result cache: a key-to-bytes store bounded by total byte size, with
//! batch eviction in insertion order, idle/age expiry, and monotonic hit and
//! miss counters.
//!
//! The central invariant, kept by every operation, is that `used_bytes`
//! equals the exact sum of the resident entries' sizes and never exceeds
//! `capacity_bytes`.

use vstd::prelude::*;

verus! {

/// One resident cache entry. The payload is never mutated in place after
/// insertion; lookups hand out a copy.
pub struct CacheEntry {
    pub key: Vec<u8>,
    pub bytes: Vec<u8>,
    pub inserted_at: u64,
    pub last_accessed_at: u64,
}

/// Observability snapshot of the cache counters.
#[derive(Clone, Copy, PartialEq, Eq, Structural, Debug)]
pub struct Stats {
    pub hits: u64,
    pub misses: u64,
    pub used_bytes: u64,
    pub capacity_bytes: u64,
    pub entry_count: usize,
}

/// What an insert did. `Accepted` and `AlreadyPresent` both mean the key is
/// resident afterwards; the two rejections leave the new item uncached,
/// which is informational for the caller, not an error.
#[derive(Clone, Copy, PartialEq, Eq, Structural, Debug)]
pub enum InsertOutcome {
    /// The entry was stored; `evicted` entries were removed to make room.
    Accepted { evicted: usize },
    /// The key was already resident; the first write wins and nothing changes.
    AlreadyPresent,
    /// The item alone is larger than the whole capacity; nothing changes.
    RejectedTooLarge,
    /// One bounded eviction pass still left too little room; the evictions
    /// stand but the item is not stored.
    RejectedNoRoom { evicted: usize },
}

impl InsertOutcome {
    pub open spec fn accepted_spec(self) -> bool {
        self is Accepted || self is AlreadyPresent
    }

    pub fn accepted(&self) -> (r: bool)
        ensures
            r == self.accepted_spec(),
    {
        match self {
            InsertOutcome::Accepted { .. } => true,
            InsertOutcome::AlreadyPresent => true,
            _ => false,
        }
    }
}

/// The exact sum of the entries' payload sizes.
pub open spec fn sum_sizes(s: Seq<CacheEntry>) -> int
    decreases s.len(),
{
    if s.len() == 0 {
        0
    } else {
        sum_sizes(s.drop_last()) + s.last().bytes@.len()
    }
}

pub open spec fn has_key(s: Seq<CacheEntry>, k: Seq<u8>) -> bool {
    exists|i: int| 0 <= i < s.len() && (#[trigger] s[i]).key@ == k
}

pub open spec fn index_of_key(s: Seq<CacheEntry>, k: Seq<u8>) -> int {
    choose|i: int| 0 <= i < s.len() && (#[trigger] s[i]).key@ == k
}

/// The payload stored under `k`; meaningful only when `has_key` holds.
pub open spec fn cached_bytes(s: Seq<CacheEntry>, k: Seq<u8>) -> Seq<u8> {
    s[index_of_key(s, k)].bytes@
}

pub open spec fn keys_unique(s: Seq<CacheEntry>) -> bool {
    forall|i: int, j: int|
        0 <= i < j < s.len() ==> (#[trigger] s[i]).key@ != (#[trigger] s[j]).key@
}

pub proof fn lemma_sum_nonneg(s: Seq<CacheEntry>)
    ensures
        sum_sizes(s) >= 0,
    decreases s.len(),
{
    if s.len() > 0 {
        lemma_sum_nonneg(s.drop_last());
    }
}

pub proof fn lemma_sum_push(s: Seq<CacheEntry>, e: CacheEntry)
    ensures
        sum_sizes(s.push(e)) == sum_sizes(s) + e.bytes@.len(),
{
    assert(s.push(e).drop_last() =~= s);
    assert(s.push(e).last() == e);
}

pub proof fn lemma_sum_concat(a: Seq<CacheEntry>, b: Seq<CacheEntry>)
    ensures
        sum_sizes(a + b) == sum_sizes(a) + sum_sizes(b),
    decreases b.len(),
{
    if b.len() == 0 {
        assert(a + b =~= a);
    } else {
        assert((a + b).drop_last() =~= a + b.drop_last());
        assert((a + b).last() == b.last());
        lemma_sum_concat(a, b.drop_last());
    }
}

pub proof fn lemma_sum_skip_one(s: Seq<CacheEntry>)
    requires
        s.len() > 0,
    ensures
        sum_sizes(s.skip(1)) == sum_sizes(s) - s[0].bytes@.len(),
    decreases s.len(),
{
    if s.len() == 1 {
        assert(s.skip(1) =~= Seq::<CacheEntry>::empty());
        assert(s.drop_last() =~= Seq::<CacheEntry>::empty());
    } else {
        assert(s.skip(1).drop_last() =~= s.drop_last().skip(1));
        assert(s.skip(1).last() == s.last());
        lemma_sum_skip_one(s.drop_last());
    }
}

pub proof fn lemma_sum_update_same_size(s: Seq<CacheEntry>, i: int, e: CacheEntry)
    requires
        0 <= i < s.len(),
        e.bytes@.len() == s[i].bytes@.len(),
    ensures
        sum_sizes(s.update(i, e)) == sum_sizes(s),
    decreases s.len(),
{
    if i == s.len() - 1 {
        assert(s.update(i, e).drop_last() =~= s.drop_last());
        assert(s.update(i, e).last() == e);
    } else {
        assert(s.update(i, e).drop_last() =~= s.drop_last().update(i, e));
        assert(s.update(i, e).last() == s.last());
        lemma_sum_update_same_size(s.drop_last(), i, e);
    }
}

/// Byte-sequence equality, used to compare cache keys and parser tokens.
pub fn bytes_eq(a: &Vec<u8>, b: &Vec<u8>) -> (r: bool)
    ensures
        r == (a@ == b@),
{
    if a.len() != b.len() {
        return false;
    }
    let mut i: usize = 0;
    while i < a.len()
        invariant
            i <= a@.len(),
            a@.len() == b@.len(),
            forall|j: int| 0 <= j < i ==> a@[j] == b@[j],
        decreases a@.len() - i,
    {
        if a[i] != b[i] {
            return false;
        }
        i = i + 1;
    }
    proof {
        assert(a@ =~= b@);
    }
    true
}

/// A verified copy of a byte vector.
pub fn clone_bytes(v: &Vec<u8>) -> (r: Vec<u8>)
    ensures
        r@ == v@,
{
    let mut out: Vec<u8> = Vec::new();
    let mut i: usize = 0;
    while i < v.len()
        invariant
            i <= v@.len(),
            out@ =~= v@.subrange(0, i as int),
        decreases v@.len() - i,
    {
        out.push(v[i]);
        i = i + 1;
    }
    proof {
        assert(out@ =~= v@);
    }
    out
}

/// The process-wide result cache: the entry mapping in insertion order, the
/// running byte total, the configured capacity, the monotonic hit and miss
/// counters, and the two expiry windows.
pub struct ResultCache {
    pub entries: Vec<CacheEntry>,
    pub used_bytes: u64,
    pub capacity_bytes: u64,
    pub hits: u64,
    pub misses: u64,
    pub time_to_live: u64,
    pub time_to_idle: u64,
}

/// An entry has expired once it is older than the time-to-live or has been
/// idle longer than the time-to-idle, whichever comes first.
pub open spec fn expired_spec(e: CacheEntry, now: u64, ttl: u64, tti: u64) -> bool {
    e.inserted_at + ttl <= now || e.last_accessed_at + tti <= now
}

/// The predicate the expiry sweep keeps entries by.
pub open spec fn live_pred(now: u64, ttl: u64, tti: u64) -> spec_fn(CacheEntry) -> bool {
    |e: CacheEntry| !expired_spec(e, now, ttl, tti)
}

impl ResultCache {
    /// Well-formedness: the byte total is the exact sum of the resident
    /// entries' sizes, it never exceeds capacity, and keys are unique.
    pub open spec fn wf(self) -> bool {
        &&& self.used_bytes as int == sum_sizes(self.entries@)
        &&& self.used_bytes <= self.capacity_bytes
        &&& keys_unique(self.entries@)
    }

    /// The counters, capacity and expiry configuration are untouched.
    pub open spec fn same_accounting(self, other: ResultCache) -> bool {
        &&& self.capacity_bytes == other.capacity_bytes
        &&& self.hits == other.hits
        &&& self.misses == other.misses
        &&& self.time_to_live == other.time_to_live
        &&& self.time_to_idle == other.time_to_idle
    }

    /// An empty cache with the configured capacity and expiry windows.
    pub fn new(capacity_bytes: u64, time_to_live: u64, time_to_idle: u64) -> (c: ResultCache)
        ensures
            c.wf(),
            c.entries@.len() == 0,
            c.used_bytes == 0,
            c.capacity_bytes == capacity_bytes,
            c.hits == 0,
            c.misses == 0,
            c.time_to_live == time_to_live,
            c.time_to_idle == time_to_idle,
    {
        ResultCache {
            entries: Vec::new(),
            used_bytes: 0,
            capacity_bytes,
            hits: 0,
            misses: 0,
            time_to_live,
            time_to_idle,
        }
    }

    fn contains_key(&self, key: &Vec<u8>) -> (r: bool)
        ensures
            r == has_key(self.entries@, key@),
    {
        let mut i: usize = 0;
        while i < self.entries.len()
            invariant
                i <= self.entries@.len(),
                forall|j: int| 0 <= j < i ==> (#[trigger] self.entries@[j]).key@ != key@,
            decreases self.entries@.len() - i,
        {
            if bytes_eq(&self.entries[i].key, key) {
                return true;
            }
            i = i + 1;
        }
        false
    }

    /// Looks the key up; on a hit, hands out a copy of the payload and
    /// refreshes the entry's last-access time. Counters are not touched
    /// here: the coordinator records hits and misses.
    pub fn lookup(&mut self, key: &Vec<u8>, now: u64) -> (r: Option<Vec<u8>>)
        requires
            old(self).wf(),
        ensures
            final(self).wf(),
            old(self).same_accounting(*final(self)),
            final(self).used_bytes == old(self).used_bytes,
            r is Some <==> has_key(old(self).entries@, key@),
            r is None ==> *final(self) == *old(self),
            (r matches Some(b) ==> b@ == cached_bytes(old(self).entries@, key@)),
            final(self).entries@.len() == old(self).entries@.len(),
            forall|i: int|
                0 <= i < old(self).entries@.len() ==> {
                    let e0 = old(self).entries@[i];
                    let e1 = #[trigger] final(self).entries@[i];
                    e1.key@ == e0.key@ && e1.bytes@ == e0.bytes@ && e1.inserted_at
                        == e0.inserted_at && (e1.last_accessed_at == e0.last_accessed_at || (
                    r is Some && i == index_of_key(old(self).entries@, key@)
                        && e1.last_accessed_at == now))
                },
    {
        let mut i: usize = 0;
        while i < self.entries.len()
            invariant
                self == old(self),
                old(self).wf(),
                i <= self.entries@.len(),
                forall|j: int| 0 <= j < i ==> (#[trigger] self.entries@[j]).key@ != key@,
            decreases self.entries@.len() - i,
        {
            if bytes_eq(&self.entries[i].key, key) {
                proof {
                    assert(keys_unique(self.entries@));
                    assert(has_key(self.entries@, key@));
                    let j = index_of_key(self.entries@, key@);
                    assert(0 <= j < self.entries@.len() && self.entries@[j].key@ == key@);
                    if j < i as int {
                        assert(self.entries@[j].key@ != key@);
                    } else if j > i as int {
                        assert(self.entries@[i as int].key@ != self.entries@[j].key@);
                    }
                    assert(j == i as int);
                }
                let mut e = self.entries.remove(i);
                e.last_accessed_at = now;
                let body = clone_bytes(&e.bytes);
                self.entries.insert(i, e);
                proof {
                    let e2 = self.entries@[i as int];
                    assert(self.entries@ =~= old(self).entries@.update(i as int, e2));
                    lemma_sum_update_same_size(old(self).entries@, i as int, e2);
                    assert forall|p: int, q: int|
                        0 <= p < q < self.entries@.len() implies (
                    #[trigger] self.entries@[p]).key@ != (#[trigger] self.entries@[q]).key@ by {
                        assert(self.entries@[p].key@ == old(self).entries@[p].key@);
                        assert(self.entries@[q].key@ == old(self).entries@[q].key@);
                        assert(old(self).entries@[p].key@ != old(self).entries@[q].key@);
                    }
                }
                return Some(body);
            }
            i = i + 1;
        }
        None
    }

    /// Tries to store `bytes` under `key`, per the documented policy:
    /// an item larger than the whole capacity is rejected untouched; a key
    /// already resident is left as it is (first write wins); otherwise up to
    /// five of the entries at the front of the insertion order are evicted
    /// until the item fits, and if one such pass is not enough the item is
    /// simply not cached.
    #[verifier::rlimit(60)]
    pub fn insert(&mut self, key: Vec<u8>, bytes: Vec<u8>, now: u64) -> (r: InsertOutcome)
        requires
            old(self).wf(),
        ensures
            final(self).wf(),
            old(self).same_accounting(*final(self)),
            // an oversized item is rejected with no change at all
            (r is RejectedTooLarge <==> bytes@.len() > old(self).capacity_bytes),
            r is RejectedTooLarge ==> final(self).entries@ == old(self).entries@ && final(self).used_bytes == old(self).used_bytes,
            // a resident key is left alone
            (r is AlreadyPresent <==> bytes@.len() <= old(self).capacity_bytes && has_key(
                old(self).entries@,
                key@,
            )),
            r is AlreadyPresent ==> final(self).entries@ == old(self).entries@ && final(self).used_bytes == old(self).used_bytes,
            // when it already fits, nothing is evicted
            bytes@.len() + old(self).used_bytes <= old(self).capacity_bytes && !has_key(
                old(self).entries@,
                key@,
            ) ==> r == (InsertOutcome::Accepted { evicted: 0 }),
            // acceptance: at most five entries left from the front, then the
            // new entry went to the back, and the bound holds again
            (r matches InsertOutcome::Accepted { evicted } ==> {
                &&& !has_key(old(self).entries@, key@)
                &&& evicted <= 5
                &&& evicted as int <= old(self).entries@.len()
                &&& final(self).entries@.drop_last() =~= old(self).entries@.skip(evicted as int)
                &&& final(self).entries@.len() == old(self).entries@.len() - evicted as int + 1
                &&& final(self).entries@.last().key@ == key@
                &&& final(self).entries@.last().bytes@ == bytes@
                &&& final(self).entries@.last().inserted_at == now
                &&& final(self).entries@.last().last_accessed_at == now
                &&& (evicted > 0 ==> old(self).used_bytes + bytes@.len() > old(self).capacity_bytes)
            }),
            // eviction never leaves the bound broken after an accepted insert
            r is Accepted ==> final(self).used_bytes <= final(self).capacity_bytes,
            r is Accepted ==> has_key(final(self).entries@, key@) && cached_bytes(
                final(self).entries@,
                key@,
            ) == bytes@,
            r is AlreadyPresent ==> has_key(final(self).entries@, key@),
            // rejection for want of room: the bounded pass ran out
            (r matches InsertOutcome::RejectedNoRoom { evicted } ==> {
                &&& !has_key(old(self).entries@, key@)
                &&& bytes@.len() <= old(self).capacity_bytes
                &&& evicted <= 5
                &&& evicted as int <= old(self).entries@.len()
                &&& final(self).entries@ =~= old(self).entries@.skip(evicted as int)
                &&& final(self).used_bytes + bytes@.len() > final(self).capacity_bytes
                &&& (evicted == 5 || final(self).entries@.len() == 0)
                &&& !has_key(final(self).entries@, key@)
            }),
    {
        let len_u64 = bytes.len() as u64;
        if len_u64 > self.capacity_bytes {
            return InsertOutcome::RejectedTooLarge;
        }
        if self.contains_key(&key) {
            return InsertOutcome::AlreadyPresent;
        }
        let mut evicted: usize = 0;
        proof {
            assert(self.entries@ =~= old(self).entries@.skip(0));
        }
        while evicted < 5 && self.entries.len() > 0 && len_u64 > self.capacity_bytes
            - self.used_bytes
            invariant
                self.wf(),
                old(self).wf(),
                old(self).same_accounting(*self),
                evicted <= 5,
                evicted as int <= old(self).entries@.len(),
                self.entries@ =~= old(self).entries@.skip(evicted as int),
                len_u64 == bytes@.len(),
                len_u64 <= self.capacity_bytes,
                !has_key(self.entries@, key@),
                evicted > 0 ==> old(self).used_bytes + bytes@.len() > old(self).capacity_bytes,
            decreases 5 - evicted,
        {
            proof {
                lemma_sum_skip_one(self.entries@);
                lemma_sum_nonneg(self.entries@.skip(1));
                if evicted == 0 {
                    assert(old(self).entries@.skip(0) =~= old(self).entries@);
                    assert(self.entries@ == old(self).entries@);
                    assert(self.used_bytes as int == sum_sizes(old(self).entries@));
                    assert(self.used_bytes == old(self).used_bytes);
                    assert(old(self).used_bytes + bytes@.len() > old(self).capacity_bytes);
                }
            }
            let sz = self.entries[0].bytes.len() as u64;
            self.used_bytes = self.used_bytes - sz;
            self.entries.remove(0);
            proof {
                assert(self.entries@ =~= old(self).entries@.skip(evicted as int).skip(1));
                assert(old(self).entries@.skip(evicted as int).skip(1) =~= old(self).entries@.skip(evicted as int + 1));
            }
            evicted = evicted + 1;
        }
        if len_u64 > self.capacity_bytes - self.used_bytes {
            return InsertOutcome::RejectedNoRoom { evicted };
        }
        proof {
            lemma_sum_push(
                self.entries@,
                CacheEntry { key: key, bytes: bytes, inserted_at: now, last_accessed_at: now },
            );
        }
        let ghost pre_push = self.entries@;
        self.entries.push(
            CacheEntry { key, bytes, inserted_at: now, last_accessed_at: now },
        );
        self.used_bytes = self.used_bytes + len_u64;
        proof {
            assert(self.entries@.drop_last() =~= pre_push);
            assert forall|i: int, j: int| 0 <= i < j < self.entries@.len() implies (
            #[trigger] self.entries@[i]).key@ != (#[trigger] self.entries@[j]).key@ by {
                if j == self.entries@.len() - 1 {
                    assert(!has_key(pre_push, self.entries@[j].key@));
                    assert(pre_push[i] == self.entries@[i]);
                }
            }
            assert(has_key(self.entries@, key@));
            let j = index_of_key(self.entries@, key@);
            if j != self.entries@.len() - 1 {
                assert(self.entries@[j].key@ != self.entries@[self.entries@.len() - 1].key@);
            }
        }
        InsertOutcome::Accepted { evicted }
    }

    /// Removes every entry that has outlived the time-to-live or sat idle
    /// past the time-to-idle; memory pressure plays no part here.
    pub fn purge_expired(&mut self, now: u64) -> (removed: usize)
        requires
            old(self).wf(),
        ensures
            final(self).wf(),
            old(self).same_accounting(*final(self)),
            final(self).entries@ =~= old(self).entries@.filter(
                live_pred(now, old(self).time_to_live, old(self).time_to_idle),
            ),
            removed as int == old(self).entries@.len() - final(self).entries@.len(),
    {
        let ghost pred = live_pred(now, old(self).time_to_live, old(self).time_to_idle);
        let ghost n = old(self).entries@.len() as int;
        let starting_len = self.entries.len();
        let mut j: usize = 0;
        let mut removed: usize = 0;
        proof {
            assert(n == starting_len as int);
            reveal(Seq::filter);
            assert(old(self).entries@.subrange(0, 0).filter(pred) =~= Seq::<CacheEntry>::empty());
            assert(old(self).entries@.subrange(0, n) =~= old(self).entries@);
            assert(self.entries@ =~= old(self).entries@.subrange(0, 0).filter(pred)
                + old(self).entries@.subrange(0, n));
        }
        while j < self.entries.len()
            invariant
                old(self).wf(),
                pred == live_pred(now, old(self).time_to_live, old(self).time_to_idle),
                n == old(self).entries@.len(),
                n <= usize::MAX as int,
                old(self).same_accounting(*self),
                removed as int + j as int <= n,
                j as int == old(self).entries@.subrange(0, removed as int + j as int).filter(
                    pred,
                ).len(),
                self.entries@ =~= old(self).entries@.subrange(0, removed as int + j as int).filter(
                    pred,
                ) + old(self).entries@.subrange(removed as int + j as int, n),
                self.used_bytes as int == sum_sizes(self.entries@),
                self.used_bytes <= self.capacity_bytes,
            decreases self.entries@.len() - j,
        {
            let ghost i = removed as int + j as int;
            let ghost fi = old(self).entries@.subrange(0, i).filter(pred);
            let ghost suffix = old(self).entries@.subrange(i, n);
            let ghost cur = old(self).entries@[i];
            proof {
                reveal(Seq::filter);
                assert(i < n) by {
                    assert(self.entries@.len() == fi.len() + suffix.len());
                }
                assert(suffix[0] == cur);
                assert(self.entries@[j as int] == cur);
                assert(old(self).entries@.subrange(0, i + 1).drop_last() =~= old(
                    self,
                ).entries@.subrange(0, i));
                assert(old(self).entries@.subrange(0, i + 1).last() == cur);
                lemma_sum_concat(fi, suffix);
                lemma_sum_skip_one(suffix);
                lemma_sum_nonneg(fi);
                lemma_sum_nonneg(suffix.skip(1));
                assert(suffix.skip(1) =~= old(self).entries@.subrange(i + 1, n));
            }
            let e = &self.entries[j];
            let expired = now >= e.inserted_at && now - e.inserted_at >= self.time_to_live
                || now >= e.last_accessed_at && now - e.last_accessed_at >= self.time_to_idle;
            proof {
                assert(expired == !pred(cur));
            }
            if expired {
                let sz = self.entries[j].bytes.len() as u64;
                self.used_bytes = self.used_bytes - sz;
                self.entries.remove(j);
                removed = removed + 1;
                proof {
                    assert(old(self).entries@.subrange(0, i + 1).filter(pred) =~= fi);
                    assert(self.entries@ =~= fi + suffix.skip(1));
                    lemma_sum_concat(fi, suffix.skip(1));
                }
            } else {
                j = j + 1;
                proof {
                    assert(old(self).entries@.subrange(0, i + 1).filter(pred) =~= fi.push(cur));
                    assert(self.entries@ =~= fi.push(cur) + suffix.skip(1));
                }
            }
        }
        proof {
            assert(removed as int + j as int == n) by {
                assert(self.entries@.len() == old(self).entries@.subrange(
                    0,
                    removed as int + j as int,
                ).filter(pred).len() + (n - removed as int - j as int));
            }
            assert(old(self).entries@.subrange(removed as int + j as int, n) =~= Seq::<
                CacheEntry,
            >::empty());
            assert(old(self).entries@.subrange(0, n) =~= old(self).entries@);
            assert(self.entries@ =~= old(self).entries@.filter(pred));
            lemma_filter_keys(old(self).entries@, pred);
        }
        removed
    }

    /// Records one cache hit.
    pub fn record_hit(&mut self)
        requires
            old(self).hits < u64::MAX,
            old(self).wf(),
        ensures
            final(self).wf(),
            final(self).hits == old(self).hits + 1,
            final(self).misses == old(self).misses,
            final(self).entries@ == old(self).entries@,
            final(self).used_bytes == old(self).used_bytes,
            final(self).capacity_bytes == old(self).capacity_bytes,
            final(self).time_to_live == old(self).time_to_live,
            final(self).time_to_idle == old(self).time_to_idle,
    {
        self.hits = self.hits + 1;
    }

    /// Records one cache miss that went through processing.
    pub fn record_miss(&mut self)
        requires
            old(self).misses < u64::MAX,
            old(self).wf(),
        ensures
            final(self).wf(),
            final(self).misses == old(self).misses + 1,
            final(self).hits == old(self).hits,
            final(self).entries@ == old(self).entries@,
            final(self).used_bytes == old(self).used_bytes,
            final(self).capacity_bytes == old(self).capacity_bytes,
            final(self).time_to_live == old(self).time_to_live,
            final(self).time_to_idle == old(self).time_to_idle,
    {
        self.misses = self.misses + 1;
    }

    /// The observability counters; all of them monotonic over the process
    /// lifetime, with no reset operation.
    pub fn stats(&self) -> (s: Stats)
        ensures
            s.hits == self.hits,
            s.misses == self.misses,
            s.used_bytes == self.used_bytes,
            s.capacity_bytes == self.capacity_bytes,
            s.entry_count == self.entries@.len(),
    {
        Stats {
            hits: self.hits,
            misses: self.misses,
            used_bytes: self.used_bytes,
            capacity_bytes: self.capacity_bytes,
            entry_count: self.entries.len(),
        }
    }
}

/// Keeping a subset of uniquely keyed entries keeps the keys unique, and
/// introduces no key that was not there.
pub proof fn lemma_filter_keys(s: Seq<CacheEntry>, pred: spec_fn(CacheEntry) -> bool)
    requires
        keys_unique(s),
    ensures
        keys_unique(s.filter(pred)),
        forall|k: Seq<u8>| has_key(s.filter(pred), k) ==> has_key(s, k),
    decreases s.len(),
{
    reveal(Seq::filter);
    if s.len() > 0 {
        let s2 = s.drop_last();
        assert(keys_unique(s2)) by {
            assert forall|i: int, j: int| 0 <= i < j < s2.len() implies (#[trigger] s2[i]).key@
                != (#[trigger] s2[j]).key@ by {
                assert(s2[i] == s[i] && s2[j] == s[j]);
            }
        }
        lemma_filter_keys(s2, pred);
        let f2 = s2.filter(pred);
        assert forall|k: Seq<u8>| has_key(s.filter(pred), k) implies has_key(s, k) by {
            let i = choose|i: int|
                0 <= i < s.filter(pred).len() && (#[trigger] s.filter(pred)[i]).key@ == k;
            if pred(s.last()) && i == s.filter(pred).len() - 1 {
                assert(s[s.len() - 1].key@ == k);
            } else {
                assert(s.filter(pred)[i] == f2[i]);
                assert(has_key(f2, k));
                assert(has_key(s2, k));
                let m = choose|m: int| 0 <= m < s2.len() && (#[trigger] s2[m]).key@ == k;
                assert(s[m].key@ == k);
            }
        }
        if pred(s.last()) {
            assert forall|i: int, j: int| 0 <= i < j < s.filter(pred).len() implies (
            #[trigger] s.filter(pred)[i]).key@ != (#[trigger] s.filter(pred)[j]).key@ by {
                if j == s.filter(pred).len() - 1 {
                    assert(s.filter(pred)[i] == f2[i]);
                    assert(has_key(f2, f2[i].key@));
                    assert(has_key(s2, f2[i].key@));
                    let m = choose|m: int| 0 <= m < s2.len() && (#[trigger] s2[m]).key@
                        == f2[i].key@;
                    assert(s[m] == s2[m]);
                    assert(s[m].key@ != s[s.len() - 1].key@);
                    assert(s.filter(pred)[j] == s.last());
                } else {
                    assert(s.filter(pred)[i] == f2[i] && s.filter(pred)[j] == f2[j]);
                }
            }
        }
    }
}

} // verus!
