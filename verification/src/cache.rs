use vstd::prelude::*;

verus! {

/// One resident entry of the in-memory byte cache. Recency is tracked with
/// a logical clock owned by the cache: every hit stamps the entry with the
/// current tick, so a smaller `last_accessed` means a longer time since the
/// last use.
pub struct SimpleCacheEntry {
    pub key: String,
    pub data: Vec<u8>,
    pub size: u64,
    pub created_tick: u64,
    pub last_accessed: u64,
}

/// A bounded in-memory cache of small decoded payloads, keyed by logical
/// name, with least-recently-used eviction. The total resident size never
/// exceeds `max_size`.
pub struct Cache {
    pub entries: Vec<SimpleCacheEntry>,
    pub max_size: u64,
    pub current_size: u64,
    pub tick: u64,
}

/// The total byte size of a sequence of entries.
pub open spec fn sum_sizes(s: Seq<SimpleCacheEntry>) -> int
    decreases s.len(),
{
    if s.len() == 0 {
        0
    } else {
        sum_sizes(s.drop_last()) + s.last().size
    }
}

pub proof fn lemma_sum_nonneg(s: Seq<SimpleCacheEntry>)
    ensures
        sum_sizes(s) >= 0,
    decreases s.len(),
{
    if s.len() > 0 {
        lemma_sum_nonneg(s.drop_last());
    }
}

pub proof fn lemma_sum_remove(s: Seq<SimpleCacheEntry>, i: int)
    requires
        0 <= i < s.len(),
    ensures
        sum_sizes(s.remove(i)) == sum_sizes(s) - s[i].size,
    decreases s.len(),
{
    if i == s.len() - 1 {
        assert(s.remove(i) =~= s.drop_last());
    } else {
        assert(s.remove(i).drop_last() =~= s.drop_last().remove(i));
        assert(s.remove(i).last() == s.last());
        lemma_sum_remove(s.drop_last(), i);
    }
}

pub proof fn lemma_sum_update(s: Seq<SimpleCacheEntry>, i: int, e: SimpleCacheEntry)
    requires
        0 <= i < s.len(),
    ensures
        sum_sizes(s.update(i, e)) == sum_sizes(s) - s[i].size + e.size,
    decreases s.len(),
{
    if i == s.len() - 1 {
        assert(s.update(i, e).drop_last() =~= s.drop_last());
        assert(s.update(i, e).last() == e);
    } else {
        assert(s.update(i, e).drop_last() =~= s.drop_last().update(i, e));
        assert(s.update(i, e).last() == s.last());
        lemma_sum_update(s.drop_last(), i, e);
    }
}

pub proof fn lemma_sum_push(s: Seq<SimpleCacheEntry>, e: SimpleCacheEntry)
    ensures
        sum_sizes(s.push(e)) == sum_sizes(s) + e.size,
{
    assert(s.push(e).drop_last() =~= s);
    assert(s.push(e).last() == e);
}

/// Entries carry pairwise distinct keys.
pub open spec fn unique_keys(s: Seq<SimpleCacheEntry>) -> bool {
    forall|i: int, j: int|
        #![trigger s[i], s[j]]
        0 <= i < s.len() && 0 <= j < s.len() && i != j ==> s[i].key@ != s[j].key@
}

/// Some entry of `s` carries the key `k`.
pub open spec fn has_key(s: Seq<SimpleCacheEntry>, k: Seq<char>) -> bool {
    exists|i: int| 0 <= i < s.len() && s[i].key@ == k
}

/// Every entry of `before` whose key is gone from `after` was accessed no
/// later than every entry that survived into `after`: eviction takes the
/// least recently used entries first.
pub open spec fn evicted_were_oldest(
    before: Seq<SimpleCacheEntry>,
    after: Seq<SimpleCacheEntry>,
) -> bool {
    forall|j: int, i: int|
        0 <= j < before.len() && !has_key(after, (#[trigger] before[j]).key@) && 0 <= i
            < after.len() ==> before[j].last_accessed <= (#[trigger] after[i]).last_accessed
}

impl Cache {
    /// Entries have pairwise distinct keys, recorded sizes agree with the
    /// payloads, the running total agrees with the entries, and the total
    /// stays within the bound.
    pub open spec fn wf(self) -> bool {
        &&& unique_keys(self.entries@)
        &&& forall|i: int|
            0 <= i < self.entries@.len() ==> (#[trigger] self.entries@[i]).size
                == self.entries@[i].data@.len()
        &&& self.current_size == sum_sizes(self.entries@)
        &&& self.current_size <= self.max_size
        &&& forall|i: int|
            0 <= i < self.entries@.len() ==> (#[trigger] self.entries@[i]).last_accessed
                <= self.tick
    }

    pub open spec fn spec_entries(self) -> Seq<SimpleCacheEntry> {
        self.entries@
    }

    pub open spec fn spec_max_size(self) -> u64 {
        self.max_size
    }

    pub open spec fn spec_current_size(self) -> u64 {
        self.current_size
    }

    /// Some entry carries the key `k` with payload `d`.
    pub open spec fn holds_entry(self, k: Seq<char>, d: Seq<u8>) -> bool {
        exists|i: int|
            0 <= i < self.spec_entries().len() && (#[trigger] self.spec_entries()[i]).key@ == k
                && self.spec_entries()[i].data@ == d
    }

    /// Every entry whose key is not `k` already stood in `older`.
    pub open spec fn others_taken_from(self, older: Cache, k: Seq<char>) -> bool {
        forall|i: int|
            0 <= i < self.spec_entries().len() && (#[trigger] self.spec_entries()[i]).key@ != k
                ==> older.spec_entries().contains(self.spec_entries()[i])
    }

    pub fn new() -> (r: Cache)
        ensures
            r.wf(),
            r.spec_entries().len() == 0,
            r.spec_max_size() == 100 * 1024 * 1024,
            r.spec_current_size() == 0,
    {
        Cache { entries: Vec::new(), max_size: 100 * 1024 * 1024, current_size: 0, tick: 0 }
    }

    /// A cache with a caller-chosen size bound.
    pub fn with_max_size(max_size: u64) -> (r: Cache)
        ensures
            r.wf(),
            r.spec_entries().len() == 0,
            r.spec_max_size() == max_size,
            r.spec_current_size() == 0,
    {
        Cache { entries: Vec::new(), max_size, current_size: 0, tick: 0 }
    }

    /// Looks a key up and, on a hit, returns a copy of the payload and
    /// stamps the entry as most recently used. A miss changes nothing.
    pub fn get(&mut self, key: &str) -> (r: Option<Vec<u8>>)
        requires
            old(self).wf(),
        ensures
            final(self).wf(),
            final(self).spec_max_size() == old(self).spec_max_size(),
            final(self).spec_current_size() == old(self).spec_current_size(),
            final(self).spec_entries().len() == old(self).spec_entries().len(),
            forall|i: int|
                0 <= i < old(self).spec_entries().len() ==> {
                    &&& (#[trigger] final(self).spec_entries()[i]).key
                        == old(self).spec_entries()[i].key
                    &&& final(self).spec_entries()[i].data == old(self).spec_entries()[i].data
                    &&& final(self).spec_entries()[i].size == old(self).spec_entries()[i].size
                },
            match r {
                Some(d) => exists|i: int|
                    0 <= i < old(self).spec_entries().len() && old(self).spec_entries()[i].key@
                        == key@ && d@ == old(self).spec_entries()[i].data@,
                None => !has_key(old(self).spec_entries(), key@) && *final(self) == *old(self),
            },
    {
        let n = self.entries.len();
        let mut i: usize = 0;
        while i < n
            invariant
                *self == *old(self),
                self.wf(),
                n == self.entries@.len(),
                i <= n,
                forall|k: int| 0 <= k < i ==> self.entries@[k].key@ != key@,
            decreases n - i,
        {
            if crate::strutil::str_eq(key, self.entries[i].key.as_str()) {
                let stamp = self.tick;
                self.entries[i].last_accessed = stamp;
                proof {
                    lemma_sum_update(
                        old(self).spec_entries(),
                        i as int,
                        self.entries@[i as int],
                    );
                }
                self.tick = if stamp < u64::MAX {
                    stamp + 1
                } else {
                    stamp
                };
                let d = copy_bytes(&self.entries[i].data);
                return Some(d);
            }
            i += 1;
        }
        None
    }

    /// Inserts a payload under a key. A payload larger than the whole
    /// cache is rejected outright (no error, nothing cached). Otherwise
    /// older entries are evicted least-recently-used first until the new
    /// payload fits, a previous entry under the same key is replaced, and
    /// the total size stays within the bound.
    pub fn insert(&mut self, key: String, data: Vec<u8>)
        requires
            old(self).wf(),
        ensures
            final(self).wf(),
            final(self).spec_max_size() == old(self).spec_max_size(),
            data@.len() > old(self).spec_max_size() ==> *final(self) == *old(self),
            data@.len() <= old(self).spec_max_size() ==> {
                &&& final(self).spec_current_size() <= final(self).spec_max_size()
                &&& final(self).holds_entry(key@, data@)
                &&& final(self).others_taken_from(*old(self), key@)
            },
    {
        let ghost gkey = key@;
        let ghost gdata = data@;
        let size = data.len() as u64;
        if size > self.max_size {
            return;
        }
        self.evict_if_needed(size);
        let ghost after_evict = self.entries@;
        // replace a previous entry under the same key
        match index_of_key(&self.entries, key.as_str()) {
            Some(found_at) => {
                let removed = self.entries.remove(found_at);
                proof {
                    lemma_sum_remove(after_evict, found_at as int);
                    lemma_sum_nonneg(self.entries@);
                    let mid = self.entries@;
                    assert forall|m: int|
                        0 <= m < mid.len() implies ((#[trigger] mid[m]).key@ != gkey && old(
                        self,
                    ).spec_entries().contains(mid[m])) by {
                        let bm: int = if m < found_at {
                            m
                        } else {
                            m + 1
                        };
                        assert(mid[m] == after_evict[bm]);
                    }
                    assert forall|i: int, j: int|
                        0 <= i < j < mid.len() implies mid[i].key@ != mid[j].key@ by {
                        let bi: int = if i < found_at {
                            i
                        } else {
                            i + 1
                        };
                        let bj: int = if j < found_at {
                            j
                        } else {
                            j + 1
                        };
                        assert(mid[i] == after_evict[bi] && mid[j] == after_evict[bj]);
                    }
                    assert forall|m: int|
                        0 <= m < mid.len() implies (#[trigger] mid[m]).size == mid[m].data@.len()
                            && mid[m].last_accessed <= self.tick by {
                        let bm: int = if m < found_at {
                            m
                        } else {
                            m + 1
                        };
                        assert(mid[m] == after_evict[bm]);
                    }
                }
                self.current_size = self.current_size - removed.size;
            },
            None => {
                proof {
                    let mid = self.entries@;
                    assert forall|m: int|
                        0 <= m < mid.len() implies ((#[trigger] mid[m]).key@ != gkey && old(
                        self,
                    ).spec_entries().contains(mid[m])) by {
                        assert(!has_key(mid, gkey));
                    }
                }
            },
        }
        let ghost mid = self.entries@;
        let stamp = self.tick;
        let entry = SimpleCacheEntry { key, data, size, created_tick: stamp, last_accessed: stamp };
        proof {
            lemma_sum_push(self.entries@, entry);
            lemma_sum_nonneg(self.entries@);
        }
        self.entries.push(entry);
        self.current_size = self.current_size + size;
        self.tick = if stamp < u64::MAX {
            stamp + 1
        } else {
            stamp
        };
        proof {
            let oldent = old(self).spec_entries();
            let fe = self.entries@;
            let idx = fe.len() - 1;
            assert(fe[idx].key@ == gkey);
            assert(fe[idx].data@ == gdata);
            assert(0 <= idx < self.spec_entries().len() && self.spec_entries()[idx].key@ == gkey
                && self.spec_entries()[idx].data@ == gdata);
            assert(self.holds_entry(gkey, gdata));
            assert forall|i: int|
                0 <= i < fe.len() && (#[trigger] fe[i]).key@ != gkey implies oldent.contains(
                fe[i]) by {
                assert(fe[i] == mid[i]);
            }
            assert(self.others_taken_from(*old(self), gkey));
            assert forall|i: int, j: int|
                0 <= i < j < fe.len() implies fe[i].key@ != fe[j].key@ by {
                assert(fe[i] == mid[i]);
                if j != idx {
                    assert(fe[j] == mid[j]);
                }
            }
            assert(self.wf());
        }
    }

    /// Evicts entries, least recently accessed first, until `new_size`
    /// more bytes would fit. Every evicted entry was accessed no later
    /// than every surviving entry, and nothing is evicted when the new
    /// payload already fits.
    pub fn evict_if_needed(&mut self, new_size: u64)
        requires
            old(self).wf(),
        ensures
            final(self).wf(),
            final(self).spec_max_size() == old(self).spec_max_size(),
            final(self).tick == old(self).tick,
            old(self).spec_current_size() + new_size <= old(self).spec_max_size() ==> *final(
                self) == *old(self),
            final(self).spec_current_size() + new_size <= final(self).spec_max_size() || final(
                self).spec_entries().len() == 0,
            forall|i: int|
                0 <= i < final(self).spec_entries().len() ==> old(self).spec_entries().contains(
                    #[trigger] final(self).spec_entries()[i]),
            evicted_were_oldest(old(self).spec_entries(), final(self).spec_entries()),
    {
        while self.current_size > u64::MAX - new_size || self.current_size + new_size
            > self.max_size
            invariant
                old(self).wf(),
                self.wf(),
                self.max_size == old(self).spec_max_size(),
                self.tick == old(self).tick,
                old(self).spec_current_size() + new_size <= old(self).spec_max_size() ==> *self
                    == *old(self),
                forall|i: int|
                    0 <= i < self.entries@.len() ==> old(self).spec_entries().contains(
                        #[trigger] self.entries@[i]),
                evicted_were_oldest(old(self).spec_entries(), self.entries@),
            decreases self.entries@.len(),
        {
            if self.entries.len() == 0 {
                return;
            }
            let n = self.entries.len();
            let mut oldest: usize = 0;
            let mut k: usize = 1;
            while k < n
                invariant
                    n == self.entries@.len(),
                    oldest < n,
                    k <= n,
                    forall|m: int|
                        0 <= m < k ==> self.entries@[oldest as int].last_accessed
                            <= self.entries@[m].last_accessed,
                decreases n - k,
            {
                if self.entries[k].last_accessed < self.entries[oldest].last_accessed {
                    oldest = k;
                }
                k += 1;
            }
            let ghost before = self.entries@;
            let removed = self.entries.remove(oldest);
            proof {
                lemma_sum_remove(before, oldest as int);
                lemma_sum_nonneg(self.entries@);
                let oldent = old(self).spec_entries();
                let after = self.entries@;
                assert forall|j: int, i: int|
                    0 <= j < oldent.len() && !has_key(after, (#[trigger] oldent[j]).key@) && 0 <= i
                        < after.len() implies oldent[j].last_accessed <= (
                #[trigger] after[i]).last_accessed by {
                    let bi: int = if i < oldest { i } else { i + 1 };
                    assert(after[i] == before[bi]);
                    if has_key(before, oldent[j].key@) {
                        let w = choose|w: int|
                            0 <= w < before.len() && before[w].key@ == oldent[j].key@;
                        if w != oldest {
                            let ai: int = if w < oldest { w } else { w - 1 };
                            assert(after[ai] == before[w]);
                            assert(has_key(after, oldent[j].key@));
                        } else {
                            assert(oldent.contains(before[oldest as int]));
                            let j2 = choose|j2: int|
                                0 <= j2 < oldent.len() && oldent[j2] == before[oldest as int];
                            if j2 != j {
                                assert(oldent[j2].key@ != oldent[j].key@);
                            }
                            assert(j2 == j);
                            assert(oldent[j] == before[oldest as int]);
                            assert(before[oldest as int].last_accessed <= before[bi].last_accessed);
                        }
                    } else {
                        assert(oldent[j].last_accessed <= before[bi].last_accessed);
                    }
                }
            }
            self.current_size = self.current_size - removed.size;
        }
    }

    /// Drops every entry.
    pub fn clear(&mut self)
        ensures
            final(self).wf(),
            final(self).spec_entries().len() == 0,
            final(self).spec_current_size() == 0,
            final(self).spec_max_size() == old(self).spec_max_size(),
    {
        self.entries.clear();
        self.current_size = 0;
    }

    /// The total size in bytes of the resident payloads.
    pub fn size(&self) -> (r: u64)
        ensures
            r == self.spec_current_size(),
    {
        self.current_size
    }

    /// The number of resident entries.
    pub fn len(&self) -> (r: usize)
        ensures
            r == self.spec_entries().len(),
    {
        self.entries.len()
    }

    pub fn is_empty(&self) -> (r: bool)
        ensures
            r == (self.spec_entries().len() == 0),
    {
        self.entries.is_empty()
    }
}

/// The position of the entry carrying `key`, if any.
fn index_of_key(entries: &Vec<SimpleCacheEntry>, key: &str) -> (r: Option<usize>)
    ensures
        match r {
            Some(i) => i < entries@.len() && entries@[i as int].key@ == key@,
            None => !has_key(entries@, key@),
        },
{
    let n = entries.len();
    let mut i: usize = 0;
    while i < n
        invariant
            n == entries@.len(),
            i <= n,
            forall|k: int| 0 <= k < i ==> entries@[k].key@ != key@,
        decreases n - i,
    {
        if crate::strutil::str_eq(key, entries[i].key.as_str()) {
            return Some(i);
        }
        i += 1;
    }
    None
}

fn copy_bytes(v: &Vec<u8>) -> (r: Vec<u8>)
    ensures
        r@ == v@,
{
    let mut r: Vec<u8> = Vec::new();
    let n = v.len();
    let mut i: usize = 0;
    while i < n
        invariant
            n == v@.len(),
            i <= n,
            r@ =~= v@.take(i as int),
        decreases n - i,
    {
        r.push(v[i]);
        i += 1;
    }
    proof {
        assert(v@.take(n as int) =~= v@);
    }
    r
}

} // verus!
