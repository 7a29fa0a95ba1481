//! A key-value cache with per-entry timestamps: entries expire after a fixed
//! lifetime, and when the cache is full the oldest-inserted entry is evicted
//! to make room.
//!
//! Time enters through explicit `now` arguments, so every operation is a
//! pure function of the store and the clock reading the caller supplies.

use vstd::prelude::*;

verus! {

/// One stored value together with the key it is filed under and the time it
/// was inserted.
pub struct CacheEntry<T> {
    /// The key the value is filed under.
    pub key: String,
    /// The stored value.
    pub data: T,
    /// When the value was inserted.
    pub timestamp: u64,
}

/// A bounded store of keyed values with expiry: a value is returned only
/// while younger than `ttl`, and inserting into a full store first evicts
/// the entry with the oldest timestamp.
pub struct Cache<T> {
    /// The live entries, in insertion order, with unique keys.
    entries: Vec<CacheEntry<T>>,
    /// Maximum age, in the caller's time unit, before an entry goes stale.
    ttl: u64,
    /// Number of entries above which insertion evicts the oldest.
    max_size: usize,
}

/// True when the entry is young enough, at time `now`, to be returned:
/// inserted no later than `now` and strictly less than `ttl` ago.
pub open spec fn entry_valid<T>(e: CacheEntry<T>, ttl: u64, now: u64) -> bool {
    e.timestamp <= now && now - e.timestamp < ttl
}

/// Whether some entry in the sequence carries the key.
pub open spec fn contains_key<T>(s: Seq<CacheEntry<T>>, k: Seq<char>) -> bool {
    exists|i: int| 0 <= i < s.len() && s[i].key@ == k
}

/// No two entries carry the same key.
pub open spec fn unique_keys<T>(s: Seq<CacheEntry<T>>) -> bool {
    forall|i: int, j: int| 0 <= i < j < s.len() ==> s[i].key@ != s[j].key@
}

/// Some entry carries the key and is still young enough at time `now`.
pub open spec fn has_live_entry<T>(s: Seq<CacheEntry<T>>, ttl: u64, k: Seq<char>, now: u64) -> bool {
    exists|i: int| 0 <= i < s.len() && s[i].key@ == k && entry_valid(s[i], ttl, now)
}

/// The position of the first entry carrying the key; meaningful only when
/// `contains_key` holds.
pub open spec fn key_index<T>(s: Seq<CacheEntry<T>>, k: Seq<char>) -> int
    decreases s.len(),
{
    if s.len() == 0 {
        0
    } else if s[0].key@ == k {
        0
    } else {
        1 + key_index(s.drop_first(), k)
    }
}

/// When a key is present, `key_index` points at its first occurrence.
pub proof fn lemma_key_index<T>(s: Seq<CacheEntry<T>>, k: Seq<char>)
    requires
        contains_key(s, k),
    ensures
        0 <= key_index(s, k) < s.len(),
        s[key_index(s, k)].key@ == k,
        forall|j: int| 0 <= j < key_index(s, k) ==> s[j].key@ != k,
    decreases s.len(),
{
    if s.len() > 0 && s[0].key@ != k {
        assert(contains_key(s.drop_first(), k)) by {
            let i = choose|i: int| 0 <= i < s.len() && s[i].key@ == k;
            assert(s.drop_first()[i - 1].key@ == k);
        }
        lemma_key_index(s.drop_first(), k);
        let ki = key_index(s, k);
        assert(ki == 1 + key_index(s.drop_first(), k));
        assert forall|j: int| 0 <= j < ki implies s[j].key@ != k by {
            if j > 0 {
                assert(s.drop_first()[j - 1].key@ != k);
            }
        }
    }
}

/// The position of the entry with the oldest timestamp, taking the first
/// among ties; meaningful only for non-empty sequences.
pub open spec fn oldest_index<T>(s: Seq<CacheEntry<T>>) -> int
    decreases s.len(),
{
    if s.len() <= 1 {
        0
    } else {
        let rest = oldest_index(s.drop_last());
        if s.last().timestamp < s[rest].timestamp {
            s.len() - 1
        } else {
            rest
        }
    }
}

/// `oldest_index` points at an entry no newer than any other.
pub proof fn lemma_oldest_index<T>(s: Seq<CacheEntry<T>>)
    requires
        s.len() > 0,
    ensures
        0 <= oldest_index(s) < s.len(),
        forall|j: int| 0 <= j < s.len() ==> s[oldest_index(s)].timestamp <= #[trigger] s[j].timestamp,
    decreases s.len(),
{
    if s.len() > 1 {
        lemma_oldest_index(s.drop_last());
        let oi = oldest_index(s);
        assert forall|j: int| 0 <= j < s.len() implies s[oi].timestamp <= #[trigger] s[j].timestamp by {
            if j < s.len() - 1 {
                assert(s.drop_last()[oldest_index(s.drop_last())].timestamp
                    <= s.drop_last()[j].timestamp);
            }
        }
    }
}

/// The store after making room for one more entry: full stores lose the
/// entry with the oldest timestamp, the first among ties.
pub open spec fn evicted<T>(s: Seq<CacheEntry<T>>, max_size: usize) -> Seq<CacheEntry<T>> {
    if s.len() >= max_size && s.len() > 0 {
        s.remove(oldest_index(s))
    } else {
        s
    }
}

/// The store after filing `v` under `key` at time `now`: any previous
/// entry for the key is dropped and the new entry appended.
pub open spec fn upserted<T>(s: Seq<CacheEntry<T>>, key: String, v: T, now: u64) -> Seq<
    CacheEntry<T>,
> {
    let base = if contains_key(s, key@) {
        s.remove(key_index(s, key@))
    } else {
        s
    };
    base.push(CacheEntry { key, data: v, timestamp: now })
}

/// What one `insert` call does to the stored entries: evict if full, then
/// file the value under the key.
pub open spec fn inserted<T>(
    s: Seq<CacheEntry<T>>,
    key: String,
    v: T,
    now: u64,
    max_size: usize,
) -> Seq<CacheEntry<T>> {
    upserted(evicted(s, max_size), key, v, now)
}

impl<T> Cache<T> {
    /// The stored entries, for specification purposes.
    pub closed spec fn entries_view(self) -> Seq<CacheEntry<T>> {
        self.entries@
    }

    /// The configured lifetime of an entry.
    pub closed spec fn spec_ttl(self) -> u64 {
        self.ttl
    }

    /// The configured capacity.
    pub closed spec fn spec_max_size(self) -> usize {
        self.max_size
    }

    /// Well-formed: no two entries carry the same key.
    pub open spec fn wf(self) -> bool {
        unique_keys(self.entries_view())
    }

    /// A key is live when it is present and its entry is still young enough
    /// at time `now`.
    pub open spec fn has_live(self, k: Seq<char>, now: u64) -> bool {
        has_live_entry(self.entries_view(), self.spec_ttl(), k, now)
    }

    /// An empty cache with the given entry lifetime and capacity.
    pub fn new(ttl: u64, max_size: usize) -> (r: Cache<T>)
        ensures
            r.wf(),
            r.entries_view() =~= Seq::<CacheEntry<T>>::empty(),
            r.spec_ttl() == ttl,
            r.spec_max_size() == max_size,
    {
        Cache { entries: Vec::new(), ttl, max_size }
    }

    /// The position of the first entry carrying the key, if any.
    fn find_key(entries: &Vec<CacheEntry<T>>, key: &str) -> (r: Option<usize>)
        ensures
            match r {
                Some(i) => contains_key(entries@, key@) && i == key_index(entries@, key@),
                None => !contains_key(entries@, key@),
            },
    {
        let mut i: usize = 0;
        while i < entries.len()
            invariant
                i <= entries@.len(),
                forall|k: int| 0 <= k < i ==> entries@[k].key@ != key@,
            decreases entries@.len() - i,
        {
            if crate::strutil::str_eq(entries[i].key.as_str(), key) {
                proof {
                    lemma_key_index(entries@, key@);
                }
                return Some(i);
            }
            i = i + 1;
        }
        None
    }

    /// The position of the entry with the oldest timestamp, first among
    /// ties.
    fn find_oldest(entries: &Vec<CacheEntry<T>>) -> (r: usize)
        requires
            entries@.len() > 0,
        ensures
            r == oldest_index(entries@),
    {
        let mut best: usize = 0;
        let mut i: usize = 1;
        while i < entries.len()
            invariant
                1 <= i <= entries@.len(),
                best == oldest_index(entries@.take(i as int)),
                best < i,
            decreases entries@.len() - i,
        {
            proof {
                assert(entries@.take(i + 1 as int).drop_last() =~= entries@.take(i as int));
            }
            if entries[i].timestamp < entries[best].timestamp {
                best = i;
            }
            i = i + 1;
        }
        proof {
            assert(entries@.take(entries@.len() as int) =~= entries@);
        }
        best
    }

    /// Returns the value filed under the key, provided it is still young
    /// enough at time `now`; a stale or missing key is a miss. A stale
    /// entry is left in place.
    pub fn get(&self, key: &str, now: u64) -> (r: Option<T>) where T: Clone
        requires
            self.wf(),
        ensures
            r is Some <==> self.has_live(key@, now),
            match r {
                Some(v) => contains_key(self.entries_view(), key@) && cloned(
                    self.entries_view()[key_index(self.entries_view(), key@)].data,
                    v,
                ),
                None => true,
            },
    {
        let idx = Self::find_key(&self.entries, key);
        match idx {
            Some(i) => {
                proof {
                    lemma_key_index(self.entries@, key@);
                }
                let e = &self.entries[i];
                if e.timestamp <= now && now - e.timestamp < self.ttl {
                    let v = e.data.clone();
                    proof {
                        assert(self.has_live(key@, now)) by {
                            assert(entry_valid(
                                self.entries_view()[i as int],
                                self.spec_ttl(),
                                now,
                            ));
                        }
                    }
                    Some(v)
                } else {
                    proof {
                        assert(!self.has_live(key@, now)) by {
                            assert(forall|j: int|
                                0 <= j < self.entries_view().len() && self.entries_view()[j].key@
                                    == key@ ==> j == i as int);
                        }
                    }
                    None
                }
            },
            None => {
                None
            },
        }
    }

    /// Files `value` under `key` at time `now`. A full cache first evicts
    /// the entry with the oldest timestamp; an existing entry for the same
    /// key is replaced.
    pub fn insert(&mut self, key: String, value: T, now: u64)
        requires
            old(self).wf(),
        ensures
            final(self).wf(),
            final(self).spec_ttl() == old(self).spec_ttl(),
            final(self).spec_max_size() == old(self).spec_max_size(),
            final(self).entries_view() =~= inserted(
                old(self).entries_view(),
                key,
                value,
                now,
                old(self).spec_max_size(),
            ),
    {
        if self.entries.len() >= self.max_size && self.entries.len() > 0 {
            let oi = Self::find_oldest(&self.entries);
            proof {
                lemma_oldest_index(self.entries@);
            }
            self.entries.remove(oi);
        }
        let ghost base = self.entries@;
        proof {
            assert(base =~= evicted(old(self).entries_view(), old(self).max_size));
        }
        let idx = Self::find_key(&self.entries, key.as_str());
        if let Some(i) = idx {
            proof {
                lemma_key_index(self.entries@, key@);
            }
            self.entries.remove(i);
        }
        self.entries.push(CacheEntry { key, data: value, timestamp: now });
    }

    /// Removes every entry that is stale at time `now`, keeping the valid
    /// ones in order.
    pub fn cleanup(&mut self, now: u64)
        requires
            old(self).wf(),
        ensures
            final(self).wf(),
            final(self).spec_ttl() == old(self).spec_ttl(),
            final(self).spec_max_size() == old(self).spec_max_size(),
            final(self).entries_view() =~= cleaned(
                old(self).entries_view(),
                old(self).spec_ttl(),
                now,
            ),
    {
        let ghost ttl0 = self.ttl;
        let ghost max0 = self.max_size;
        let mut out: Vec<CacheEntry<T>> = Vec::new();
        let ghost orig = self.entries@;
        proof {
            assert(out@ + self.entries@ =~= orig);
            assert forall|i: int, j: int|
                0 <= i < j < orig.len() implies #[trigger] orig[i].key@ != #[trigger] orig[j].key@ by {
                assert(old(self).entries_view()[i].key@ != old(self).entries_view()[j].key@);
            }
        }
        loop
            invariant
                self.ttl == ttl0,
                self.max_size == max0,
                out@ + cleaned(self.entries@, ttl0, now) =~= cleaned(orig, ttl0, now),
                forall|i: int|
                    0 <= i < out@.len() ==> entry_valid(#[trigger] out@[i], ttl0, now),
                forall|i: int, j: int|
                    0 <= i < j < out@.len() + self.entries@.len() ==> (out@
                        + self.entries@)[i].key@ != (out@ + self.entries@)[j].key@,
            ensures
                self.entries@.len() == 0,
                self.ttl == ttl0,
                self.max_size == max0,
                out@ =~= cleaned(orig, ttl0, now),
                forall|i: int, j: int| 0 <= i < j < out@.len() ==> out@[i].key@ != out@[j].key@,
            decreases self.entries@.len(),
        {
            let ghost pre = self.entries@;
            let ghost all_pre = out@ + pre;
            if self.entries.len() == 0 {
                proof {
                    assert(cleaned(pre, ttl0, now) =~= Seq::<CacheEntry<T>>::empty());
                    assert(out@ + cleaned(pre, ttl0, now) =~= out@);
                    assert(forall|i: int, j: int|
                        0 <= i < j < out@.len() ==> all_pre[i].key@ != all_pre[j].key@);
                    assert(forall|i: int| 0 <= i < out@.len() ==> all_pre[i] == out@[i]);
                }
                break ;
            }
            let e = self.entries.remove(0);
            proof {
                assert(pre.drop_first() =~= self.entries@);
                assert(cleaned(pre, ttl0, now) == if entry_valid(pre[0], ttl0, now) {
                    seq![pre[0]] + cleaned(pre.drop_first(), ttl0, now)
                } else {
                    cleaned(pre.drop_first(), ttl0, now)
                });
            }
            let ghost out_pre = out@;
            if e.timestamp <= now && now - e.timestamp < self.ttl {
                out.push(e);
                proof {
                    assert(out@ + self.entries@ =~= all_pre);
                    assert(out@ + cleaned(self.entries@, ttl0, now) =~= out_pre + (seq![pre[0]]
                        + cleaned(pre.drop_first(), ttl0, now)));
                }
            } else {
                proof {
                    let all_post = out@ + self.entries@;
                    assert forall|i: int, j: int|
                        0 <= i < j < all_post.len() implies all_post[i].key@
                        != all_post[j].key@ by {
                        let ii: int = if i < out_pre.len() {
                            i
                        } else {
                            i + 1
                        };
                        let jj: int = if j < out_pre.len() {
                            j
                        } else {
                            j + 1
                        };
                        assert(all_post[i] == all_pre[ii]);
                        assert(all_post[j] == all_pre[jj]);
                        assert(all_pre[ii].key@ != all_pre[jj].key@);
                    }
                }
            }
        }
        self.entries = out;
    }
}

/// The entries of the sequence still young enough at time `now`, in order.
pub open spec fn cleaned<T>(s: Seq<CacheEntry<T>>, ttl: u64, now: u64) -> Seq<CacheEntry<T>>
    decreases s.len(),
{
    if s.len() == 0 {
        Seq::empty()
    } else if entry_valid(s[0], ttl, now) {
        seq![s[0]] + cleaned(s.drop_first(), ttl, now)
    } else {
        cleaned(s.drop_first(), ttl, now)
    }
}

/// Removing the first entry that carries a key from a store with unique
/// keys leaves no entry with that key.
proof fn lemma_remove_key<T>(s: Seq<CacheEntry<T>>, k: Seq<char>)
    requires
        unique_keys(s),
        contains_key(s, k),
    ensures
        !contains_key(s.remove(key_index(s, k)), k),
        unique_keys(s.remove(key_index(s, k))),
{
    lemma_key_index(s, k);
    let ki = key_index(s, k);
    let r = s.remove(ki);
    assert forall|i: int| 0 <= i < r.len() implies r[i].key@ != k by {
        if i < ki {
            assert(r[i] == s[i]);
        } else {
            assert(r[i] == s[i + 1]);
        }
    }
    assert forall|i: int, j: int| 0 <= i < j < r.len() implies r[i].key@ != r[j].key@ by {
        let ii: int = if i < ki {
            i
        } else {
            i + 1
        };
        let jj: int = if j < ki {
            j
        } else {
            j + 1
        };
        assert(r[i] == s[ii]);
        assert(r[j] == s[jj]);
    }
}

/// Removing any entry from a store with unique keys keeps the keys unique.
proof fn lemma_remove_unique<T>(s: Seq<CacheEntry<T>>, at: int)
    requires
        unique_keys(s),
        0 <= at < s.len(),
    ensures
        unique_keys(s.remove(at)),
{
    let r = s.remove(at);
    assert forall|i: int, j: int| 0 <= i < j < r.len() implies r[i].key@ != r[j].key@ by {
        let ii: int = if i < at {
            i
        } else {
            i + 1
        };
        let jj: int = if j < at {
            j
        } else {
            j + 1
        };
        assert(r[i] == s[ii]);
        assert(r[j] == s[jj]);
    }
}

/// After an insertion the store still has unique keys, and the first (and
/// only) entry for the inserted key is the newly appended one.
pub proof fn lemma_inserted_key<T>(s: Seq<CacheEntry<T>>, key: String, v: T, now: u64, max_size: usize)
    requires
        unique_keys(s),
    ensures
        unique_keys(inserted(s, key, v, now, max_size)),
        contains_key(inserted(s, key, v, now, max_size), key@),
        ({
            let s2 = inserted(s, key, v, now, max_size);
            &&& key_index(s2, key@) == s2.len() - 1
            &&& s2[key_index(s2, key@)] == (CacheEntry { key, data: v, timestamp: now })
        }),
{
    let e0 = evicted(s, max_size);
    if s.len() >= max_size && s.len() > 0 {
        lemma_oldest_index(s);
        lemma_remove_unique(s, oldest_index(s));
    }
    assert(unique_keys(e0));
    let base = if contains_key(e0, key@) {
        e0.remove(key_index(e0, key@))
    } else {
        e0
    };
    if contains_key(e0, key@) {
        lemma_remove_key(e0, key@);
    }
    assert(!contains_key(base, key@));
    assert(unique_keys(base));
    let s2 = base.push(CacheEntry { key, data: v, timestamp: now });
    assert(s2 =~= inserted(s, key, v, now, max_size));
    assert(s2[s2.len() - 1].key@ == key@);
    assert(contains_key(s2, key@));
    lemma_key_index(s2, key@);
    let ki = key_index(s2, key@);
    assert forall|i: int| 0 <= i < base.len() implies s2[i].key@ != key@ by {
        assert(base[i].key@ != key@);
    }
    assert(ki == s2.len() - 1);
    assert forall|i: int, j: int| 0 <= i < j < s2.len() implies s2[i].key@ != s2[j].key@ by {
        if j < s2.len() - 1 {
            assert(base[i].key@ != base[j].key@);
        } else {
            assert(s2[i].key@ != key@);
        }
    }
}

/// Law: filing a value and looking it up at a time within the lifetime
/// finds exactly that value; the store keeps unique keys throughout.
pub proof fn lemma_cache_ttl_hit<T>(
    s: Seq<CacheEntry<T>>,
    ttl: u64,
    max_size: usize,
    key: String,
    v: T,
    now: u64,
    t: u64,
)
    requires
        unique_keys(s),
        now <= t,
        t - now < ttl,
    ensures
        has_live_entry(inserted(s, key, v, now, max_size), ttl, key@, t),
        inserted(s, key, v, now, max_size)[key_index(
            inserted(s, key, v, now, max_size),
            key@,
        )].data == v,
{
    lemma_inserted_key(s, key, v, now, max_size);
    let s2 = inserted(s, key, v, now, max_size);
    assert(s2[s2.len() - 1].key@ == key@ && entry_valid(s2[s2.len() - 1], ttl, t));
}

/// Law: once more time than the lifetime has passed since every insertion,
/// a lookup misses, whichever key is asked for.
pub proof fn lemma_cache_ttl_expired<T>(s: Seq<CacheEntry<T>>, ttl: u64, k: Seq<char>, t: u64)
    requires
        forall|i: int| 0 <= i < s.len() ==> #[trigger] s[i].timestamp > t || t - s[i].timestamp >= ttl,
    ensures
        !has_live_entry(s, ttl, k, t),
{
}

/// Law: inserting a fresh key into a full store whose oldest entry is
/// strictly older than every other evicts exactly that entry: its key is
/// gone, every other key survives, and the new key is present.
pub proof fn lemma_cache_eviction<T>(
    s: Seq<CacheEntry<T>>,
    max_size: usize,
    key: String,
    v: T,
    now: u64,
)
    requires
        unique_keys(s),
        s.len() >= max_size,
        max_size > 0,
        forall|j: int|
            0 <= j < s.len() && j != oldest_index(s) ==> s[oldest_index(s)].timestamp
                < #[trigger] s[j].timestamp,
        s[oldest_index(s)].key@ != key@,
        !contains_key(s, key@),
    ensures
        !contains_key(inserted(s, key, v, now, max_size), s[oldest_index(s)].key@),
        contains_key(inserted(s, key, v, now, max_size), key@),
        forall|j: int|
            0 <= j < s.len() && j != oldest_index(s) ==> contains_key(
                inserted(s, key, v, now, max_size),
                #[trigger] s[j].key@,
            ),
{
    lemma_oldest_index(s);
    let oi = oldest_index(s);
    let e0 = evicted(s, max_size);
    assert(e0 == s.remove(oi));
    lemma_remove_unique(s, oi);
    assert forall|i: int| 0 <= i < e0.len() implies e0[i].key@ != s[oi].key@ by {
        let ii: int = if i < oi {
            i
        } else {
            i + 1
        };
        assert(e0[i] == s[ii]);
    }
    assert forall|i: int| 0 <= i < e0.len() implies e0[i].key@ != key@ by {
        let ii: int = if i < oi {
            i
        } else {
            i + 1
        };
        assert(e0[i] == s[ii]);
    }
    assert(!contains_key(e0, key@));
    let s2 = e0.push(CacheEntry { key, data: v, timestamp: now });
    assert(s2 =~= inserted(s, key, v, now, max_size));
    assert(s2[s2.len() - 1].key@ == key@);
    assert(contains_key(s2, key@));
    assert forall|i: int| 0 <= i < s2.len() implies s2[i].key@ != s[oi].key@ by {
        if i < s2.len() - 1 {
            assert(e0[i].key@ != s[oi].key@);
        }
    }
    assert forall|j: int|
        0 <= j < s.len() && j != oi implies contains_key(s2, #[trigger] s[j].key@) by {
        let jj: int = if j < oi {
            j
        } else {
            j - 1
        };
        assert(e0[jj] == s[j]);
        assert(s2[jj] == s[j]);
    }
}

} // verus!
