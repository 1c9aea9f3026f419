//! The query result cache: serialized results by key, expired after a time
//! to live, evicted least recently used first when the cache is full.

use vstd::prelude::*;
use std::time::{Duration, Instant};
use crate::clock::{monotonic_now, elapsed_nanos, duration_nanos};
use crate::text::{push_str, append_i64, str_eq, starts_with, dec_int};

verus! {

/// The limits of a cache.
#[derive(Debug, Clone)]
pub struct CacheConfig {
    pub max_entries: usize,
    pub ttl_seconds: u64,
    pub max_memory_bytes: usize,
}

impl Default for CacheConfig {
    fn default() -> (r: Self)
        ensures
            r.max_entries == 1000,
            r.ttl_seconds == 300,
            r.max_memory_bytes == 100 * 1024 * 1024,
    {
        CacheConfig { max_entries: 1000, ttl_seconds: 300, max_memory_bytes: 100 * 1024 * 1024 }
    }
}

/// A cached value with its times, its use count and its size.
#[derive(Debug, Clone)]
pub struct CacheEntry<V> {
    pub value: V,
    pub created_at: Instant,
    pub last_accessed: Instant,
    pub access_count: u64,
    pub size_bytes: usize,
}

impl<V> CacheEntry<V> {
    /// An entry made now, not used yet.
    pub fn new(value: V, size_bytes: usize) -> (r: Self)
        ensures
            r.value == value,
            r.access_count == 0,
            r.size_bytes == size_bytes,
    {
        CacheEntry { value, created_at: monotonic_now(), last_accessed: monotonic_now(), access_count: 0, size_bytes }
    }

    /// Records a use now; the count stops at its maximum.
    pub fn touch(&mut self)
        ensures
            final(self).value == old(self).value,
            final(self).created_at == old(self).created_at,
            final(self).size_bytes == old(self).size_bytes,
            final(self).access_count == if old(self).access_count < u64::MAX { old(self).access_count + 1 } else { u64::MAX as int },
    {
        self.last_accessed = monotonic_now();
        self.access_count = self.access_count.saturating_add(1);
    }

    /// Whether more than `ttl` has passed since the entry was made, by the
    /// monotonic clock.
    pub fn is_expired(&self, ttl: Duration) -> bool {
        elapsed_nanos(&self.created_at) > duration_nanos(&ttl)
    }
}

/// Counters of a cache.
#[derive(Debug, Clone, Copy)]
pub struct CacheStats {
    pub hits: u64,
    pub misses: u64,
    pub evictions: u64,
    pub insertions: u64,
    pub current_entries: usize,
    pub current_memory_bytes: usize,
}

impl Default for CacheStats {
    fn default() -> (r: Self)
        ensures
            r.hits == 0 && r.misses == 0 && r.evictions == 0 && r.insertions == 0,
            r.current_entries == 0 && r.current_memory_bytes == 0,
    {
        CacheStats { hits: 0, misses: 0, evictions: 0, insertions: 0, current_entries: 0, current_memory_bytes: 0 }
    }
}

/// One more, stopping at the maximum.
pub open spec fn bump(n: u64) -> u64 {
    if n < u64::MAX { (n + 1) as u64 } else { u64::MAX }
}

/// A cached key and its value.
pub type Cached = (Seq<char>, Seq<u8>);

/// The bytes held by a list of cached values.
pub open spec fn total_bytes(s: Seq<Cached>) -> nat
    decreases s.len(),
{
    if s.len() == 0 { 0 } else { total_bytes(s.drop_last()) + s.last().1.len() }
}

/// The list without the entries of a key.
pub open spec fn drop_key(s: Seq<Cached>, key: Seq<char>) -> Seq<Cached>
    decreases s.len(),
{
    if s.len() == 0 {
        s
    } else if s.last().0 == key {
        drop_key(s.drop_last(), key)
    } else {
        drop_key(s.drop_last(), key).push(s.last())
    }
}

/// The list without the entries whose keys begin with a prefix.
pub open spec fn drop_prefixed(s: Seq<Cached>, prefix: Seq<char>) -> Seq<Cached>
    decreases s.len(),
{
    if s.len() == 0 {
        s
    } else if prefix.is_prefix_of(s.last().0) {
        drop_prefixed(s.drop_last(), prefix)
    } else {
        drop_prefixed(s.drop_last(), prefix).push(s.last())
    }
}

/// How many entries, least recently used first, must go before `size`
/// more bytes fit under `max` bytes (all of them, if it never fits).
pub open spec fn evictions_needed(s: Seq<Cached>, size: nat, max: nat) -> nat
    decreases s.len(),
{
    if s.len() == 0 || total_bytes(s) + size <= max {
        0
    } else {
        1 + evictions_needed(s.drop_first(), size, max)
    }
}

/// The entries after a first eviction when the cache holds `max_entries`
/// or more.
pub open spec fn after_count_eviction(s: Seq<Cached>, max_entries: nat) -> Seq<Cached> {
    if s.len() >= max_entries && s.len() > 0 { s.drop_first() } else { s }
}

/// The entries after an insertion: one eviction if the cache is at its
/// entry limit, then as many as the memory limit needs, then the key's
/// old entry goes and the new one becomes the most recently used.
pub open spec fn after_insert(s: Seq<Cached>, key: Seq<char>, value: Seq<u8>, max_entries: nat, max_bytes: nat) -> Seq<Cached> {
    let s1 = after_count_eviction(s, max_entries);
    let s2 = s1.skip(evictions_needed(s1, value.len(), max_bytes) as int);
    drop_key(s2, key).push((key, value))
}

/// The number of entries an insertion evicts.
pub open spec fn insert_evictions(s: Seq<Cached>, value: Seq<u8>, max_entries: nat, max_bytes: nat) -> nat {
    let s1 = after_count_eviction(s, max_entries);
    (s.len() - s1.len()) as nat + evictions_needed(s1, value.len(), max_bytes)
}

/// Whether no two entries of a list share a key.
pub open spec fn distinct_keys(s: Seq<Cached>) -> bool {
    forall|i: int, j: int| 0 <= i < j < s.len() ==> s[i].0 != s[j].0
}

/// The "{database}_{measurement}_{query}_{start}_{end}" key of a query.
pub open spec fn cache_key(database: Seq<char>, measurement: Seq<char>, query: Seq<char>, start: i64, end: i64) -> Seq<char> {
    database + "_"@ + measurement + "_"@ + query + "_"@ + dec_int(start as int) + "_"@ + dec_int(end as int)
}

/// The cache key of a query on a database and measurement over a time
/// range.
pub fn generate_cache_key(database: &str, measurement: &str, query: &str, time_range: (i64, i64)) -> (r: String)
    ensures
        r@ == cache_key(database@, measurement@, query@, time_range.0, time_range.1),
{
    let mut s = String::new();
    push_str(&mut s, database);
    push_str(&mut s, "_");
    push_str(&mut s, measurement);
    push_str(&mut s, "_");
    push_str(&mut s, query);
    push_str(&mut s, "_");
    append_i64(&mut s, time_range.0);
    push_str(&mut s, "_");
    append_i64(&mut s, time_range.1);
    proof { assert(Seq::<char>::empty() + database@ =~= database@); }
    s
}

/// What a lookup of `key` does to a cache whose entry for it was made
/// `age` nanoseconds ago: without an entry, a miss; with one older than the
/// time to live (more than `ttl_seconds * 10^9` nanoseconds), the entry is
/// dropped and the lookup is a miss; otherwise the value is returned, the
/// entry becomes the most recently used and the lookup is a hit.
pub open spec fn looked_up(before: QueryCache, after: QueryCache, key: Seq<char>, age: u128, r: Option<Vec<u8>>) -> bool {
    &&& after.wf()
    &&& after.spec_config() == before.spec_config()
    &&& after.spec_stats().insertions == before.spec_stats().insertions
    &&& after.spec_stats().evictions == before.spec_stats().evictions
    &&& (forall|j: int| 0 <= j < before.contents().len() ==> before.contents()[j].0 != key) ==> (r is None
        && after.contents() == before.contents()
        && after.spec_stats() == (CacheStats { misses: bump(before.spec_stats().misses), ..before.spec_stats() }))
    &&& forall|i: int| 0 <= i < before.contents().len() && before.contents()[i].0 == key ==>
        if age > before.ttl_nanos() {
            r is None
            && after.contents() == before.contents().remove(i)
            && after.spec_stats().misses == bump(before.spec_stats().misses)
            && after.spec_stats().hits == before.spec_stats().hits
            && after.spec_stats().current_entries == after.contents().len()
        } else {
            r matches Some(v) && v@ == before.contents()[i].1
            && after.contents() == before.contents().remove(i).push(before.contents()[i])
            && after.spec_stats() == (CacheStats { hits: bump(before.spec_stats().hits), ..before.spec_stats() })
        }
}

/// Serialized query results by key, least recently used first.
pub struct QueryCache {
    config: CacheConfig,
    entries: Vec<(String, CacheEntry<Vec<u8>>)>,
    stats: CacheStats,
}

impl QueryCache {
    /// Whether keys are distinct, each entry's size is that of its value,
    /// and the memory counter covers the bytes held.
    pub closed spec fn wf(&self) -> bool {
        &&& distinct_keys(self.contents())
        &&& forall|i: int| 0 <= i < self.entries@.len() ==> (#[trigger] self.entries@[i]).1.size_bytes == self.entries@[i].1.value@.len()
        &&& total_bytes(self.contents()) <= self.stats.current_memory_bytes
    }

    /// The cached keys and values, least recently used first.
    pub closed spec fn contents(&self) -> Seq<Cached> {
        self.entries@.map_values(|e: (String, CacheEntry<Vec<u8>>)| (e.0@, e.1.value@))
    }

    /// The counters as last updated.
    pub closed spec fn spec_stats(&self) -> CacheStats {
        self.stats
    }

    /// The limits.
    pub closed spec fn spec_config(&self) -> CacheConfig {
        self.config
    }

    /// An empty cache with the given limits.
    pub fn new(config: CacheConfig) -> (r: Self)
        ensures
            r.wf(),
            r.contents().len() == 0,
            r.spec_stats() == (CacheStats { hits: 0, misses: 0, evictions: 0, insertions: 0, current_entries: 0, current_memory_bytes: 0 }),
            r.spec_config() == config,
    {
        let r = QueryCache { config, entries: Vec::new(), stats: CacheStats::default() };
        proof { assert(r.contents() =~= Seq::<Cached>::empty()); }
        r
    }

    fn find(&self, key: &str) -> (r: Option<usize>)
        ensures
            match r {
                Some(i) => i < self.contents().len() && self.contents()[i as int].0 == key@,
                None => forall|j: int| 0 <= j < self.contents().len() ==> self.contents()[j].0 != key@,
            },
    {
        let mut i: usize = 0;
        while i < self.entries.len()
            invariant
                i <= self.entries@.len(),
                forall|j: int| 0 <= j < i ==> self.contents()[j].0 != key@,
            decreases self.entries@.len() - i,
        {
            if str_eq(self.entries[i].0.as_str(), key) {
                return Some(i);
            }
            i = i + 1;
        }
        None
    }

    fn total_size(&self) -> (r: usize)
        requires
            self.wf(),
        ensures
            r == total_bytes(self.contents()),
    {
        let ghost c = self.contents();
        let mut total: usize = 0;
        let mut i: usize = 0;
        while i < self.entries.len()
            invariant
                c == self.contents(),
                i <= c.len(),
                total_bytes(c) <= self.stats.current_memory_bytes,
                forall|j: int| 0 <= j < self.entries@.len() ==> (#[trigger] self.entries@[j]).1.size_bytes == self.entries@[j].1.value@.len(),
                total == total_bytes(c.take(i as int)),
            decreases c.len() - i,
        {
            proof {
                assert(c.take(i + 1).drop_last() =~= c.take(i as int));
                lemma_total_bytes_prefix(c, i + 1);
            }
            total = total + self.entries[i].1.size_bytes;
            i = i + 1;
        }
        proof { assert(c.take(c.len() as int) =~= c); }
        total
    }

    /// Removes the entry at `i`, keeping the counters' invariant.
    fn take_entry(&mut self, i: usize) -> (r: (String, CacheEntry<Vec<u8>>))
        requires
            old(self).wf(),
            i < old(self).contents().len(),
        ensures
            final(self).wf(),
            final(self).contents() == old(self).contents().remove(i as int),
            (r.0@, r.1.value@) == old(self).contents()[i as int],
            r.1.size_bytes == r.1.value@.len(),
            final(self).spec_stats() == old(self).spec_stats(),
            final(self).spec_config() == old(self).spec_config(),
    {
                let ghost before = self.contents();
        let ghost raw = self.entries@;
        let mut entries: Vec<(String, CacheEntry<Vec<u8>>)> = Vec::new();
        std::mem::swap(&mut entries, &mut self.entries);
        let e = entries.remove(i);
        self.entries = entries;
        proof {
            assert(self.contents() =~= before.remove(i as int));
            lemma_total_bytes_remove(before, i as int);
            assert(raw[i as int] == e);
            assert forall|a: int, b: int| 0 <= a < b < self.contents().len() implies self.contents()[a].0 != self.contents()[b].0 by {
                let a2 = if a < i { a } else { a + 1 };
                let b2 = if b < i { b } else { b + 1 };
                assert(self.contents()[a] == before[a2] && self.contents()[b] == before[b2]);
            }
            assert forall|j: int| 0 <= j < self.entries@.len() implies (#[trigger] self.entries@[j]).1.size_bytes == self.entries@[j].1.value@.len() by {
                let j2 = if j < i { j } else { j + 1 };
                assert(self.entries@[j] == raw[j2]);
            }
        }
        e
    }

    fn evict_lru(&mut self)
        requires
            old(self).wf(),
        ensures
            final(self).wf(),
            final(self).contents() == if old(self).contents().len() > 0 { old(self).contents().drop_first() } else { old(self).contents() },
            old(self).contents().len() > 0 ==> final(self).spec_stats() == (CacheStats {
                evictions: bump(old(self).spec_stats().evictions),
                current_entries: final(self).contents().len() as usize,
                current_memory_bytes: (old(self).spec_stats().current_memory_bytes - old(self).contents()[0].1.len()) as usize,
                ..old(self).spec_stats()
            }),
            old(self).contents().len() == 0 ==> final(self).spec_stats() == old(self).spec_stats(),
            final(self).spec_config() == old(self).spec_config(),
    {
        if self.entries.len() > 0 {
            proof {
                lemma_total_bytes_remove(self.contents(), 0);
            }
            let ghost before = self.contents();
            let (_key, removed) = self.take_entry(0);
            proof { assert(before.remove(0) =~= before.drop_first()); }
            self.stats = CacheStats {
                evictions: self.stats.evictions.saturating_add(1),
                current_entries: self.entries.len(),
                current_memory_bytes: self.stats.current_memory_bytes - removed.size_bytes,
                ..self.stats
            };
        }
    }

    /// Stores a value under a key: one least recently used entry goes when
    /// the cache is at its entry limit, then as many as the memory limit
    /// needs; the value replaces any earlier one of the key and becomes the
    /// most recently used. The memory counter grows by the value's size
    /// (stopping at its maximum) and the other counters stop at theirs.
    pub fn insert(&mut self, key: String, value: Vec<u8>)
        requires
            old(self).wf(),
        ensures
            final(self).wf(),
            final(self).contents() == after_insert(old(self).contents(), key@, value@,
                old(self).spec_config().max_entries as nat, old(self).spec_config().max_memory_bytes as nat),
            final(self).spec_stats().hits == old(self).spec_stats().hits,
            final(self).spec_stats().misses == old(self).spec_stats().misses,
            final(self).spec_stats().insertions == bump(old(self).spec_stats().insertions),
            final(self).spec_stats().current_entries == final(self).contents().len(),
            final(self).spec_config() == old(self).spec_config(),
    {
        let entry_size = value.len();
        let ghost s0 = self.contents();
        if self.entries.len() >= self.config.max_entries {
            self.evict_lru();
        }
        let ghost s1 = self.contents();
        proof { assert(s1 == after_count_eviction(s0, self.config.max_entries as nat)); }
        let max = self.config.max_memory_bytes;
        let mut total = self.total_size();
        let ghost mut k: int = 0;
        proof { assert(s1.skip(0) =~= s1); }
        while (entry_size > max || total > max - entry_size) && self.entries.len() > 0
            invariant
                self.wf(),
                0 <= k <= s1.len(),
                self.contents() == s1.skip(k),
                total == total_bytes(self.contents()),
                evictions_needed(s1, entry_size as nat, max as nat) == k + evictions_needed(s1.skip(k), entry_size as nat, max as nat),
                self.spec_config() == old(self).spec_config(),
                max == self.spec_config().max_memory_bytes,
                self.spec_stats().hits == old(self).spec_stats().hits,
                self.spec_stats().misses == old(self).spec_stats().misses,
                self.spec_stats().insertions == old(self).spec_stats().insertions,
            decreases self.contents().len(),
        {
            proof {
                assert(s1.skip(k).drop_first() =~= s1.skip(k + 1));
            }
            self.evict_lru();
            proof { k = k + 1; }
            total = self.total_size();
        }
        proof {
            assert(evictions_needed(s1.skip(k), entry_size as nat, max as nat) == 0);
        }
        let ghost s2 = self.contents();
        match self.find(key.as_str()) {
            Some(i) => {
                proof { lemma_drop_key_at(s2, key@, i as int); }
                let _old = self.take_entry(i);
            },
            None => {
                proof { lemma_drop_key_absent(s2, key@); }
            },
        }
        proof {
            lemma_drop_key_bytes(s2, key@);
        }
        let ghost s3 = self.contents();
        let ghost raw = self.entries@;
        let entry = CacheEntry::new(value, entry_size);
        let mut entries: Vec<(String, CacheEntry<Vec<u8>>)> = Vec::new();
        std::mem::swap(&mut entries, &mut self.entries);
        entries.push((key, entry));
        let ghost pushed = entries@;
        self.stats = CacheStats {
            insertions: self.stats.insertions.saturating_add(1),
            current_entries: entries.len(),
            current_memory_bytes: self.stats.current_memory_bytes.saturating_add(entry_size),
            ..self.stats
        };
        self.entries = entries;
        proof {
            assert(self.contents() =~= s3.push((key@, value@)));
            assert(s3.push((key@, value@)).drop_last() =~= s3);
            assert forall|a: int, b: int| 0 <= a < b < self.contents().len() implies self.contents()[a].0 != self.contents()[b].0 by {
                if b == s3.len() {
                    lemma_drop_key_lacks(s2, key@, a);
                }
            }
            assert forall|j: int| 0 <= j < self.entries@.len() implies (#[trigger] self.entries@[j]).1.size_bytes == self.entries@[j].1.value@.len() by {
                if j < raw.len() { assert(self.entries@[j] == raw[j]); }
            }
        }
    }

    /// The time to live in nanoseconds.
    pub closed spec fn ttl_nanos(&self) -> int {
        self.config.ttl_seconds as int * 1_000_000_000
    }

    /// The cached bytes of a key, its entry having been made `age`
    /// nanoseconds ago. A value older than the time to live is dropped
    /// instead and counts as a miss; a value returned counts as a hit and
    /// becomes the most recently used.
    pub fn get_bytes_aged(&mut self, key: &str, age: u128) -> (r: Option<Vec<u8>>)
        requires
            old(self).wf(),
        ensures
            looked_up(*old(self), *final(self), key@, age, r),
    {
        let ttl_nanos: u128 = self.config.ttl_seconds as u128 * 1_000_000_000;
        match self.find(key) {
            Some(i) => {
                let ghost before = self.contents();
                proof {
                    assert forall|j: int| 0 <= j < before.len() && before[j].0 == key@ implies j == i by {
                        if j != i { assert(before[j].0 != before[i as int].0 || j == i); }
                    }
                }
                let (k, mut entry) = self.take_entry(i);
                if age > ttl_nanos {
                    proof { lemma_total_bytes_remove(before, i as int); }
                    self.stats = CacheStats {
                        misses: self.stats.misses.saturating_add(1),
                        current_entries: self.entries.len(),
                        current_memory_bytes: self.stats.current_memory_bytes - entry.size_bytes,
                        ..self.stats
                    };
                    return None;
                }
                entry.touch();
                let v = entry.value.clone();
                let ghost rest = self.contents();
                let ghost raw = self.entries@;
                let mut entries: Vec<(String, CacheEntry<Vec<u8>>)> = Vec::new();
                std::mem::swap(&mut entries, &mut self.entries);
                entries.push((k, entry));
                self.stats = CacheStats { hits: self.stats.hits.saturating_add(1), ..self.stats };
                self.entries = entries;
                proof {
                    assert(self.contents() =~= rest.push(before[i as int]));
                    lemma_total_bytes_remove(before, i as int);
                    assert(rest.push(before[i as int]).drop_last() =~= rest);
                    assert forall|a: int, b: int| 0 <= a < b < self.contents().len() implies self.contents()[a].0 != self.contents()[b].0 by {
                        if b == rest.len() {
                            let a2 = if a < i { a } else { a + 1 };
                            assert(rest[a] == before[a2]);
                        }
                    }
                    assert forall|j: int| 0 <= j < self.entries@.len() implies (#[trigger] self.entries@[j]).1.size_bytes == self.entries@[j].1.value@.len() by {
                        if j < raw.len() { assert(self.entries@[j] == raw[j]); }
                    }
                }
                Some(v)
            },
            None => {
                self.stats = CacheStats { misses: self.stats.misses.saturating_add(1), ..self.stats };
                None
            },
        }
    }

    /// The cached bytes of a key, its age read from the monotonic clock.
    /// A value older than the time to live is dropped instead and counts as
    /// a miss; a value returned counts as a hit and becomes the most
    /// recently used.
    pub fn get_bytes(&mut self, key: &str) -> (r: Option<Vec<u8>>)
        requires
            old(self).wf(),
        ensures
            exists|age: u128| looked_up(*old(self), *final(self), key@, age, r),
    {
        let age = match self.find(key) {
            Some(i) => elapsed_nanos(&self.entries[i].1.created_at),
            None => 0,
        };
        self.get_bytes_aged(key, age)
    }

    /// Drops the entry of a key, if there is one.
    pub fn invalidate(&mut self, key: &str)
        requires
            old(self).wf(),
        ensures
            final(self).wf(),
            final(self).contents() == drop_key(old(self).contents(), key@),
            final(self).spec_config() == old(self).spec_config(),
            final(self).spec_stats().hits == old(self).spec_stats().hits,
            final(self).spec_stats().misses == old(self).spec_stats().misses,
            final(self).spec_stats().evictions == old(self).spec_stats().evictions,
            final(self).spec_stats().insertions == old(self).spec_stats().insertions,
    {
                let ghost before = self.contents();
        match self.find(key) {
            Some(i) => {
                proof {
                    lemma_drop_key_at(before, key@, i as int);
                    lemma_total_bytes_remove(before, i as int);
                }
                let (_k, removed) = self.take_entry(i);
                self.stats = CacheStats {
                    current_entries: self.entries.len(),
                    current_memory_bytes: self.stats.current_memory_bytes - removed.size_bytes,
                    ..self.stats
                };
            },
            None => {
                proof { lemma_drop_key_absent(before, key@); }
            },
        }
    }

    /// Drops every entry whose key begins with the prefix.
    pub fn invalidate_prefix(&mut self, prefix: &str)
        requires
            old(self).wf(),
        ensures
            final(self).wf(),
            final(self).contents() == drop_prefixed(old(self).contents(), prefix@),
            final(self).spec_config() == old(self).spec_config(),
            final(self).spec_stats().hits == old(self).spec_stats().hits,
            final(self).spec_stats().misses == old(self).spec_stats().misses,
            final(self).spec_stats().evictions == old(self).spec_stats().evictions,
            final(self).spec_stats().insertions == old(self).spec_stats().insertions,
    {
                let ghost c = self.contents();
        let mut kept: Vec<(String, CacheEntry<Vec<u8>>)> = Vec::new();
        let mut removed_bytes: usize = 0;
        let mut entries: Vec<(String, CacheEntry<Vec<u8>>)> = Vec::new();
        std::mem::swap(&mut entries, &mut self.entries);
        let ghost raw = entries@;
        let n = entries.len();
        let mut i: usize = 0;
        while i < n
            invariant
                n == raw.len(),
                c == raw.map_values(|e: (String, CacheEntry<Vec<u8>>)| (e.0@, e.1.value@)),
                forall|j: int| 0 <= j < raw.len() ==> (#[trigger] raw[j]).1.size_bytes == raw[j].1.value@.len(),
                distinct_keys(c),
                total_bytes(c) <= self.stats.current_memory_bytes,
                i <= n,
                entries@ == raw.skip(i as int),
                kept@.map_values(|e: (String, CacheEntry<Vec<u8>>)| (e.0@, e.1.value@)) == drop_prefixed(c.take(i as int), prefix@),
                forall|j: int| 0 <= j < kept@.len() ==> (#[trigger] kept@[j]).1.size_bytes == kept@[j].1.value@.len(),
                removed_bytes + total_bytes(drop_prefixed(c.take(i as int), prefix@)) == total_bytes(c.take(i as int)),
            decreases n - i,
        {
            let e = entries.remove(0);
            proof {
                assert(raw.skip(i as int)[0] == e);
                assert(raw.skip(i as int).drop_first() =~= raw.skip(i + 1));
                assert(c.take(i + 1).drop_last() =~= c.take(i as int));
                assert(c.take(i + 1).last() == (e.0@, e.1.value@));
                lemma_total_bytes_prefix(c, i + 1);
                lemma_drop_prefixed_bytes(c.take(i + 1), prefix@);
            }
            proof {
                let t = c.take(i + 1);
                assert(t.drop_last() =~= c.take(i as int));
                assert(total_bytes(t) == total_bytes(c.take(i as int)) + e.1.value@.len());
            }
            if starts_with(e.0.as_str(), prefix) {
                proof {
                    assert(drop_prefixed(c.take(i + 1), prefix@) == drop_prefixed(c.take(i as int), prefix@));
                    assert(total_bytes(c.take(i + 1)) <= total_bytes(c));
                }
                removed_bytes = removed_bytes + e.1.size_bytes;
            } else {
                let ghost before = kept@;
                kept.push(e);
                proof {
                    let d0 = drop_prefixed(c.take(i as int), prefix@);
                    assert(drop_prefixed(c.take(i + 1), prefix@) == d0.push((e.0@, e.1.value@)));
                    assert(d0.push((e.0@, e.1.value@)).drop_last() =~= d0);
                    assert(kept@.map_values(|e: (String, CacheEntry<Vec<u8>>)| (e.0@, e.1.value@))
                        =~= before.map_values(|e: (String, CacheEntry<Vec<u8>>)| (e.0@, e.1.value@)).push((e.0@, e.1.value@)));
                }
            }
            i = i + 1;
        }
        proof {
            assert(c.take(n as int) =~= c);
            lemma_drop_prefixed_distinct(c, prefix@);
        }
        let removed_any = kept.len() < n;
        let new_len = kept.len();
        self.entries = kept;
        if removed_any {
            self.stats = CacheStats {
                current_entries: new_len,
                current_memory_bytes: self.stats.current_memory_bytes - removed_bytes,
                ..self.stats
            };
        }
    }

    /// Drops every entry.
    pub fn clear(&mut self)
        requires
            old(self).wf(),
        ensures
            final(self).wf(),
            final(self).contents().len() == 0,
            final(self).spec_stats() == (CacheStats { current_entries: 0, current_memory_bytes: 0, ..old(self).spec_stats() }),
            final(self).spec_config() == old(self).spec_config(),
    {
        self.entries = Vec::new();
        self.stats = CacheStats { current_entries: 0, current_memory_bytes: 0, ..self.stats };
        proof { assert(self.contents() =~= Seq::<Cached>::empty()); }
    }

    /// The counters, with the entry count and memory recomputed from the
    /// entries.
    pub fn stats(&mut self) -> (r: CacheStats)
        requires
            old(self).wf(),
        ensures
            final(self).wf(),
            r == (CacheStats {
                current_entries: old(self).contents().len() as usize,
                current_memory_bytes: total_bytes(old(self).contents()) as usize,
                ..old(self).spec_stats()
            }),
            final(self).spec_stats() == r,
            final(self).contents() == old(self).contents(),
            final(self).spec_config() == old(self).spec_config(),
    {
        let total = self.total_size();
        self.stats = CacheStats { current_entries: self.entries.len(), current_memory_bytes: total, ..self.stats };
        self.stats
    }

    /// The number of entries.
    pub fn len(&self) -> (r: usize)
        ensures
            r == self.contents().len(),
    {
        self.entries.len()
    }

    /// Whether the cache holds no entries.
    pub fn is_empty(&self) -> (r: bool)
        ensures
            r == (self.contents().len() == 0),
    {
        self.entries.len() == 0
    }
}

proof fn lemma_total_bytes_prefix(s: Seq<Cached>, i: int)
    requires
        0 <= i <= s.len(),
    ensures
        total_bytes(s.take(i)) <= total_bytes(s),
    decreases s.len() - i,
{
    if i < s.len() {
        lemma_total_bytes_prefix(s, i + 1);
        assert(s.take(i + 1).drop_last() =~= s.take(i));
    } else {
        assert(s.take(i) =~= s);
    }
}

proof fn lemma_total_bytes_append(a: Seq<Cached>, b: Seq<Cached>)
    ensures
        total_bytes(a + b) == total_bytes(a) + total_bytes(b),
    decreases b.len(),
{
    if b.len() == 0 {
        assert(a + b =~= a);
    } else {
        lemma_total_bytes_append(a, b.drop_last());
        assert((a + b).drop_last() =~= a + b.drop_last());
    }
}

proof fn lemma_total_bytes_remove(s: Seq<Cached>, i: int)
    requires
        0 <= i < s.len(),
    ensures
        total_bytes(s.remove(i)) + s[i].1.len() == total_bytes(s),
        i == 0 ==> total_bytes(s.drop_first()) + s[0].1.len() == total_bytes(s),
{
    let pre = s.subrange(0, i);
    let post = s.subrange(i + 1, s.len() as int);
    assert(s =~= pre + seq![s[i]] + post);
    assert(s.remove(i) =~= pre + post);
    lemma_total_bytes_append(pre + seq![s[i]], post);
    lemma_total_bytes_append(pre, seq![s[i]]);
    lemma_total_bytes_append(pre, post);
    assert(total_bytes(seq![s[i]]) == s[i].1.len()) by {
        assert(seq![s[i]].drop_last() =~= Seq::<Cached>::empty());
        assert(total_bytes(Seq::<Cached>::empty()) == 0);
    }
    if i == 0 {
        assert(s.drop_first() =~= s.remove(0));
    }
}

proof fn lemma_drop_key_absent(s: Seq<Cached>, key: Seq<char>)
    requires
        forall|j: int| 0 <= j < s.len() ==> s[j].0 != key,
    ensures
        drop_key(s, key) == s,
    decreases s.len(),
{
    if s.len() > 0 {
        lemma_drop_key_absent(s.drop_last(), key);
        assert(s.drop_last().push(s.last()) =~= s);
    }
}

proof fn lemma_drop_key_at(s: Seq<Cached>, key: Seq<char>, i: int)
    requires
        distinct_keys(s),
        0 <= i < s.len(),
        s[i].0 == key,
    ensures
        drop_key(s, key) == s.remove(i),
    decreases s.len(),
{
    if i == s.len() - 1 {
        lemma_drop_key_absent(s.drop_last(), key);
        assert(s.remove(i) =~= s.drop_last());
    } else {
        lemma_drop_key_at(s.drop_last(), key, i);
        assert(s.remove(i) =~= s.drop_last().remove(i).push(s.last()));
    }
}

proof fn lemma_drop_key_bytes(s: Seq<Cached>, key: Seq<char>)
    ensures
        total_bytes(drop_key(s, key)) <= total_bytes(s),
    decreases s.len(),
{
    if s.len() > 0 {
        lemma_drop_key_bytes(s.drop_last(), key);
        let d = drop_key(s.drop_last(), key);
        assert(d.push(s.last()).drop_last() =~= d);
    }
}

proof fn lemma_drop_key_lacks(s: Seq<Cached>, key: Seq<char>, a: int)
    requires
        0 <= a < drop_key(s, key).len(),
    ensures
        drop_key(s, key)[a].0 != key,
    decreases s.len(),
{
    if s.len() > 0 {
        if s.last().0 == key {
            lemma_drop_key_lacks(s.drop_last(), key, a);
        } else if a < drop_key(s.drop_last(), key).len() {
            lemma_drop_key_lacks(s.drop_last(), key, a);
        }
    }
}

proof fn lemma_drop_prefixed_bytes(s: Seq<Cached>, prefix: Seq<char>)
    ensures
        total_bytes(drop_prefixed(s, prefix)) <= total_bytes(s),
    decreases s.len(),
{
    if s.len() > 0 {
        lemma_drop_prefixed_bytes(s.drop_last(), prefix);
        let d = drop_prefixed(s.drop_last(), prefix);
        assert(d.push(s.last()).drop_last() =~= d);
    }
}

proof fn lemma_drop_prefixed_members(s: Seq<Cached>, prefix: Seq<char>)
    ensures
        forall|a: int| 0 <= a < drop_prefixed(s, prefix).len() ==> s.contains(#[trigger] drop_prefixed(s, prefix)[a]),
    decreases s.len(),
{
    if s.len() > 0 {
        let init = s.drop_last();
        lemma_drop_prefixed_members(init, prefix);
        let d = drop_prefixed(s, prefix);
        assert forall|a: int| 0 <= a < d.len() implies s.contains(#[trigger] d[a]) by {
            if a < drop_prefixed(init, prefix).len() {
                assert(init.contains(drop_prefixed(init, prefix)[a]));
                let j = choose|j: int| 0 <= j < init.len() && init[j] == drop_prefixed(init, prefix)[a];
                assert(s[j] == init[j]);
            } else {
                assert(d[a] == s.last());
                assert(s[s.len() - 1] == s.last());
            }
        }
    }
}

proof fn lemma_drop_prefixed_distinct(s: Seq<Cached>, prefix: Seq<char>)
    requires
        distinct_keys(s),
    ensures
        distinct_keys(drop_prefixed(s, prefix)),
    decreases s.len(),
{
    if s.len() > 0 {
        let init = s.drop_last();
        assert(distinct_keys(init)) by {
            assert forall|a: int, b: int| 0 <= a < b < init.len() implies init[a].0 != init[b].0 by {
                assert(init[a] == s[a] && init[b] == s[b]);
            }
        }
        lemma_drop_prefixed_distinct(init, prefix);
        lemma_drop_prefixed_members(init, prefix);
        let d0 = drop_prefixed(init, prefix);
        if !prefix.is_prefix_of(s.last().0) {
            let d = d0.push(s.last());
            assert forall|a: int, b: int| 0 <= a < b < d.len() implies d[a].0 != d[b].0 by {
                if b == d0.len() {
                    assert(init.contains(d0[a]));
                    let j = choose|j: int| 0 <= j < init.len() && init[j] == d0[a];
                    assert(s[j] == init[j]);
                    assert(s[j].0 != s[s.len() - 1].0);
                } else {
                    assert(d[a] == d0[a] && d[b] == d0[b]);
                }
            }
        }
    }
}

/// A value just stored under a key is what the cache then holds for the
/// key, as its most recently used entry, and no other entry has the key.
pub proof fn law_insert_then_lookup(s: Seq<Cached>, key: Seq<char>, value: Seq<u8>, max_entries: nat, max_bytes: nat)
    ensures
        after_insert(s, key, value, max_entries, max_bytes).last() == (key, value),
        forall|j: int| 0 <= j < after_insert(s, key, value, max_entries, max_bytes).len() - 1
            ==> (#[trigger] after_insert(s, key, value, max_entries, max_bytes)[j]).0 != key,
{
    let s1 = after_count_eviction(s, max_entries);
    let s2 = s1.skip(evictions_needed(s1, value.len(), max_bytes) as int);
    assert forall|j: int| 0 <= j < after_insert(s, key, value, max_entries, max_bytes).len() - 1
        implies (#[trigger] after_insert(s, key, value, max_entries, max_bytes)[j]).0 != key by {
        lemma_drop_key_lacks(s2, key, j);
    }
}

proof fn lemma_evictions_fit(s: Seq<Cached>, size: nat, max: nat)
    ensures
        evictions_needed(s, size, max) <= s.len(),
        evictions_needed(s, size, max) < s.len() ==> total_bytes(s.skip(evictions_needed(s, size, max) as int)) + size <= max,
    decreases s.len(),
{
    if s.len() > 0 && total_bytes(s) + size > max {
        lemma_evictions_fit(s.drop_first(), size, max);
        assert(s.drop_first().skip(evictions_needed(s.drop_first(), size, max) as int)
            =~= s.skip(evictions_needed(s, size, max) as int));
    } else if s.len() > 0 {
        assert(s.skip(0) =~= s);
    }
}

proof fn lemma_drop_key_len(s: Seq<Cached>, key: Seq<char>)
    ensures
        drop_key(s, key).len() <= s.len(),
    decreases s.len(),
{
    if s.len() > 0 {
        lemma_drop_key_len(s.drop_last(), key);
    }
}

/// An insertion keeps the cache within its limits: within the entry limit
/// when it was within it before (and the limit is positive), and within
/// the memory limit unless the new value alone exceeds it, in which case
/// it is the only entry; the newest entry is the one inserted.
pub proof fn law_insert_respects_limits(s: Seq<Cached>, key: Seq<char>, value: Seq<u8>, max_entries: nat, max_bytes: nat)
    ensures
        0 < max_entries && s.len() <= max_entries ==> after_insert(s, key, value, max_entries, max_bytes).len() <= max_entries,
        total_bytes(after_insert(s, key, value, max_entries, max_bytes)) <= max_bytes
            || after_insert(s, key, value, max_entries, max_bytes).len() == 1,
        value.len() <= max_bytes ==> total_bytes(after_insert(s, key, value, max_entries, max_bytes)) <= max_bytes,
        after_insert(s, key, value, max_entries, max_bytes).last() == (key, value),
{
    let s1 = after_count_eviction(s, max_entries);
    let k = evictions_needed(s1, value.len(), max_bytes);
    let s2 = s1.skip(k as int);
    lemma_evictions_fit(s1, value.len(), max_bytes);
    lemma_drop_key_len(s2, key);
    lemma_drop_key_bytes(s2, key);
    let d = drop_key(s2, key);
    assert(d.push((key, value)).drop_last() =~= d);
    if k == s1.len() {
        assert(s2.len() == 0);
        assert(d.len() == 0);
    }
    if d.push((key, value)).len() == 1 {
        assert(d.len() == 0);
        assert(total_bytes(d) == 0);
    }
}

} // verus!
