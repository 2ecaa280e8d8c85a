use vstd::prelude::*;
use vstd::string::StringExecFns;
use vstd::string::StringSliceAdditionalSpecFns;

verus! {

/// One record of the on-disk artifact cache index: where a downloaded copy
/// of `url` lives, its digest and size, and when the record was created
/// and expires. The index itself is persisted by the caller; this module
/// owns only the decisions over it.
pub struct CacheEntry {
    pub url: String,
    pub file_path: String,
    pub hash: String,
    pub size: u64,
    pub created_at: u64,
    pub expires_at: Option<u64>,
    pub etag: Option<String>,
    pub content_type: Option<String>,
}

/// The index of the persistent artifact cache: one entry per distinct
/// source URL, a size budget, and a maximum age for new entries. File and
/// index I/O stay with the caller: methods that drop entries hand them
/// back so the caller can delete the files and rewrite the index.
pub struct HttpCache {
    pub cache_dir: String,
    pub entries: Vec<CacheEntry>,
    pub max_cache_size: u64,
    pub max_age_secs: u64,
}

/// The total recorded size of the entries.
pub open spec fn sum_entry_sizes(s: Seq<CacheEntry>) -> int
    decreases s.len(),
{
    if s.len() == 0 {
        0
    } else {
        sum_entry_sizes(s.drop_last()) + s.last().size
    }
}

pub proof fn lemma_entry_sum_nonneg(s: Seq<CacheEntry>)
    ensures
        sum_entry_sizes(s) >= 0,
    decreases s.len(),
{
    if s.len() > 0 {
        lemma_entry_sum_nonneg(s.drop_last());
    }
}

pub proof fn lemma_entry_sum_remove(s: Seq<CacheEntry>, i: int)
    requires
        0 <= i < s.len(),
    ensures
        sum_entry_sizes(s.remove(i)) == sum_entry_sizes(s) - s[i].size,
    decreases s.len(),
{
    if i == s.len() - 1 {
        assert(s.remove(i) =~= s.drop_last());
    } else {
        assert(s.remove(i).drop_last() =~= s.drop_last().remove(i));
        assert(s.remove(i).last() == s.last());
        lemma_entry_sum_remove(s.drop_last(), i);
    }
}

pub proof fn lemma_entry_sum_push(s: Seq<CacheEntry>, e: CacheEntry)
    ensures
        sum_entry_sizes(s.push(e)) == sum_entry_sizes(s) + e.size,
{
    assert(s.push(e).drop_last() =~= s);
    assert(s.push(e).last() == e);
}

/// Every prefix of the entries weighs no more than the whole, because
/// sizes are non-negative.
pub proof fn lemma_entry_sum_prefix(s: Seq<CacheEntry>, k: int)
    requires
        0 <= k <= s.len(),
    ensures
        sum_entry_sizes(s.take(k)) <= sum_entry_sizes(s),
    decreases s.len() - k,
{
    if k < s.len() {
        lemma_entry_sum_prefix(s, k + 1);
        assert(s.take(k + 1).drop_last() =~= s.take(k));
        assert(s.take(k + 1).last() == s[k]);
        lemma_entry_sum_nonneg(s.take(k));
    } else {
        assert(s.take(k) =~= s);
    }
}

/// Entries describe pairwise distinct URLs.
pub open spec fn unique_urls(s: Seq<CacheEntry>) -> bool {
    forall|i: int, j: int|
        #![trigger s[i], s[j]]
        0 <= i < s.len() && 0 <= j < s.len() && i != j ==> s[i].url@ != s[j].url@
}

/// Some entry of `s` describes `u`.
pub open spec fn has_url(s: Seq<CacheEntry>, u: Seq<char>) -> bool {
    exists|i: int| 0 <= i < s.len() && s[i].url@ == u
}

/// The entry has outlived its expiry time.
pub open spec fn entry_expired(e: CacheEntry, now: u64) -> bool {
    match e.expires_at {
        Some(x) => now > x,
        None => false,
    }
}

/// Every entry of `before` whose URL is gone from `after` was created no
/// later than every surviving entry: size-based eviction takes the oldest
/// records first.
pub open spec fn evicted_were_oldest_created(
    before: Seq<CacheEntry>,
    after: Seq<CacheEntry>,
) -> bool {
    forall|j: int, i: int|
        0 <= j < before.len() && !has_url(after, (#[trigger] before[j]).url@) && 0 <= i
            < after.len() ==> before[j].created_at <= (#[trigger] after[i]).created_at
}

impl HttpCache {
    pub open spec fn wf(self) -> bool {
        &&& unique_urls(self.entries@)
        &&& sum_entry_sizes(self.entries@) <= u64::MAX
    }

    pub fn new(cache_dir: String, max_size: u64, max_age_secs: u64) -> (r: HttpCache)
        ensures
            r.wf(),
            r.entries@.len() == 0,
            r.cache_dir == cache_dir,
            r.max_cache_size == max_size,
            r.max_age_secs == max_age_secs,
    {
        HttpCache { cache_dir, entries: Vec::new(), max_cache_size: max_size, max_age_secs }
    }

    /// Reinstates one index record, as read back from the persisted
    /// index. A record for an already-present URL, or one that would push
    /// the recorded total over `u64::MAX`, is rejected and returned back.
    pub fn restore_entry(&mut self, e: CacheEntry) -> (r: Option<CacheEntry>)
        requires
            old(self).wf(),
        ensures
            final(self).wf(),
            final(self).cache_dir == old(self).cache_dir,
            final(self).max_cache_size == old(self).max_cache_size,
            final(self).max_age_secs == old(self).max_age_secs,
            match r {
                Some(back) => back == e && *final(self) == *old(self),
                None => final(self).entries@ == old(self).entries@.push(e) && !has_url(
                    old(self).entries@,
                    e.url@,
                ),
            },
    {
        proof {
            lemma_entry_sum_nonneg(self.entries@);
        }
        if self.get_cache_size() > u64::MAX - e.size {
            return Some(e);
        }
        match index_of_url(&self.entries, e.url.as_str()) {
            Some(_) => Some(e),
            None => {
                proof {
                    lemma_entry_sum_push(self.entries@, e);
                    let fe = self.entries@.push(e);
                    let mid = self.entries@;
                    assert forall|a: int, b: int|
                        0 <= a < fe.len() && 0 <= b < fe.len() && a != b implies fe[a].url@
                            != fe[b].url@ by {
                        if a < fe.len() - 1 && b < fe.len() - 1 {
                            assert(fe[a] == mid[a] && fe[b] == mid[b]);
                        } else if a == fe.len() - 1 {
                            assert(fe[b] == mid[b]);
                        } else {
                            assert(fe[a] == mid[a]);
                        }
                    }
                }
                self.entries.push(e);
                None
            },
        }
    }

    /// The lowercase hex SHA-1 digest of the URL: the stable index key and
    /// on-disk file name for that URL's cached copy.
    pub fn hash_url(url: &str) -> (r: String)
        ensures
            r@ == crate::hashing::sha1_hex_of(url.spec_bytes()),
            r@.len() == 40,
    {
        crate::hashing::sha1_hex(url.as_bytes())
    }

    /// The path under the cache directory where a copy of `url` is kept.
    pub fn cached_path(&self, url: &str) -> (r: String)
        ensures
            r@ == self.cache_dir@ + seq!['/'] + crate::hashing::sha1_hex_of(url.spec_bytes()),
    {
        let digest = Self::hash_url(url);
        let mut r = self.cache_dir.clone();
        r.append("/");
        r.append(digest.as_str());
        proof {
            reveal_strlit("/");
            assert(r@ =~= self.cache_dir@ + seq!['/'] + digest@);
        }
        r
    }

    /// The recorded path for `url`, if the index holds an entry for it.
    /// The caller checks whether the file is actually present.
    pub fn entry_path(&self, url: &str) -> (r: Option<String>)
        ensures
            match r {
                Some(p) => exists|i: int|
                    0 <= i < self.entries@.len() && (#[trigger] self.entries@[i]).url@ == url@
                        && p@ == self.entries@[i].file_path@,
                None => !has_url(self.entries@, url@),
            },
    {
        match index_of_url(&self.entries, url) {
            Some(i) => {
                let p = copy_string(&self.entries[i].file_path);
                proof {
                    assert(0 <= i < self.entries@.len() && self.entries@[i as int].url@ == url@
                        && p@ == self.entries@[i as int].file_path@);
                }
                Some(p)
            },
            None => None,
        }
    }

    /// Serves a lookup: the recorded path is returned only when an entry
    /// for `url` exists, has not expired, matches the expected digest when
    /// one is given, and its file is still present on disk
    /// (`file_present`, checked by the caller against the path from
    /// [`Self::entry_path`]). A cache must never claim validity for a file
    /// it cannot serve, so without the file the answer is nothing.
    pub fn get_cached_file(
        &self,
        url: &str,
        expected_hash: Option<&str>,
        now: u64,
        file_present: bool,
    ) -> (r: Option<String>)
        requires
            self.wf(),
        ensures
            !file_present ==> r is None,
            match r {
                Some(p) => file_present && exists|i: int|
                    {
                        &&& 0 <= i < self.entries@.len()
                        &&& (#[trigger] self.entries@[i]).url@ == url@
                        &&& p@ == self.entries@[i].file_path@
                        &&& !entry_expired(self.entries@[i], now)
                        &&& match expected_hash {
                            Some(h) => h@ == self.entries@[i].hash@,
                            None => true,
                        }
                    },
                None => forall|i: int|
                    0 <= i < self.entries@.len() && (#[trigger] self.entries@[i]).url@ == url@
                        ==> (!file_present || entry_expired(self.entries@[i], now) || match
                        expected_hash {
                        Some(h) => h@ != self.entries@[i].hash@,
                        None => false,
                    }),
            },
    {
        match index_of_url(&self.entries, url) {
            Some(i) => {
                let expired = match &self.entries[i].expires_at {
                    Some(x) => now > *x,
                    None => false,
                };
                let hash_ok = match expected_hash {
                    Some(h) => crate::hashing::hash_matches(self.entries[i].hash.as_str(), h),
                    None => true,
                };
                proof {
                    assert forall|j: int|
                        0 <= j < self.entries@.len() && (#[trigger] self.entries@[j]).url@ == url@
                            implies j == i by {
                        if j != i {
                            assert(self.entries@[j].url@ != self.entries@[i as int].url@);
                        }
                    }
                }
                if !expired && hash_ok && file_present {
                    let p = copy_string(&self.entries[i].file_path);
                    proof {
                        assert(0 <= i < self.entries@.len() && self.entries@[i as int].url@ == url@
                            && p@ == self.entries@[i as int].file_path@);
                    }
                    Some(p)
                } else {
                    None
                }
            },
            None => None,
        }
    }

    /// Records a stored copy of `url`: replaces any previous entry for the
    /// same URL with one whose expiry is `now` plus the cache's maximum
    /// age, then evicts oldest-created entries down to the size budget.
    /// Returns the path the caller must copy the file to, and the entries
    /// whose files the caller must delete.
    pub fn store_file(&mut self, url: &str, hash: &str, size: u64, now: u64) -> (r: (
        String,
        Vec<CacheEntry>,
    ))
        requires
            old(self).wf(),
            sum_entry_sizes(old(self).entries@) + size <= u64::MAX,
        ensures
            final(self).wf(),
            final(self).cache_dir == old(self).cache_dir,
            final(self).max_cache_size == old(self).max_cache_size,
            final(self).max_age_secs == old(self).max_age_secs,
            sum_entry_sizes(final(self).entries@) <= final(self).max_cache_size,
            r.0@ == old(self).cache_dir@ + seq!['/'] + crate::hashing::sha1_hex_of(
                url.spec_bytes(),
            ),
    {
        let path = self.cached_path(url);
        let ghost ae = self.entries@;
        // replace any previous entry for this URL
        let mut dropped: Vec<CacheEntry> = Vec::new();
        match index_of_url(&self.entries, url) {
            Some(i) => {
                let removed = self.entries.remove(i);
                proof {
                    lemma_entry_sum_remove(ae, i as int);
                    lemma_entry_sum_nonneg(self.entries@);
                    let mid = self.entries@;
                    assert forall|a: int, b: int|
                        0 <= a < mid.len() && 0 <= b < mid.len() && a != b implies mid[a].url@
                            != mid[b].url@ by {
                        let ba: int = if a < i {
                            a
                        } else {
                            a + 1
                        };
                        let bb: int = if b < i {
                            b
                        } else {
                            b + 1
                        };
                        assert(mid[a] == ae[ba] && mid[b] == ae[bb]);
                    }
                }
                dropped.push(removed);
            },
            None => {},
        }
        let entry = CacheEntry {
            url: url.to_owned(),
            file_path: copy_string(&path),
            hash: hash.to_owned(),
            size,
            created_at: now,
            expires_at: Some(now.saturating_add(self.max_age_secs)),
            etag: None,
            content_type: None,
        };
        proof {
            lemma_entry_sum_push(self.entries@, entry);
            lemma_entry_sum_nonneg(self.entries@);
            let mid = self.entries@;
            let fe = mid.push(entry);
            assert forall|a: int, b: int|
                0 <= a < fe.len() && 0 <= b < fe.len() && a != b implies fe[a].url@ != fe[b].url@
            by {
                if a < fe.len() - 1 && b < fe.len() - 1 {
                    assert(fe[a] == mid[a] && fe[b] == mid[b]);
                } else if a == fe.len() - 1 {
                    assert(fe[b] == mid[b]);
                } else {
                    assert(fe[a] == mid[a]);
                }
            }
        }
        self.entries.push(entry);
        let mut evicted = self.evict_to_budget();
        dropped.append(&mut evicted);
        (path, dropped)
    }

    /// Removes every expired entry, handing them back so the caller can
    /// delete the files and rewrite the index once at the end. Exactly the
    /// entries whose expiry has passed are removed; the survivors keep
    /// their relative order.
    pub fn cleanup_expired(&mut self, now: u64) -> (r: Vec<CacheEntry>)
        requires
            old(self).wf(),
        ensures
            final(self).wf(),
            final(self).cache_dir == old(self).cache_dir,
            final(self).max_cache_size == old(self).max_cache_size,
            final(self).max_age_secs == old(self).max_age_secs,
            final(self).entries@.len() + r@.len() == old(self).entries@.len(),
            forall|i: int|
                0 <= i < final(self).entries@.len() ==> !entry_expired(
                    #[trigger] final(self).entries@[i],
                    now,
                ) && old(self).entries@.contains(final(self).entries@[i]),
            forall|i: int|
                0 <= i < r@.len() ==> entry_expired(#[trigger] r@[i], now) && old(
                    self,
                ).entries@.contains(r@[i]),
            forall|m: int|
                0 <= m < old(self).entries@.len() ==> if entry_expired(
                    #[trigger] old(self).entries@[m],
                    now,
                ) {
                    r@.contains(old(self).entries@[m])
                } else {
                    final(self).entries@.contains(old(self).entries@[m])
                },
    {
        let n = self.entries.len();
        let mut kept: Vec<CacheEntry> = Vec::new();
        let mut removed: Vec<CacheEntry> = Vec::new();
        let mut i: usize = 0;
        while i < n
            invariant
                *self == *old(self),
                old(self).wf(),
                n == self.entries@.len(),
                i <= n,
                kept@.len() + removed@.len() == i,
                sum_entry_sizes(kept@) <= sum_entry_sizes(self.entries@.take(i as int)),
                unique_urls(kept@),
                forall|k: int|
                    0 <= k < kept@.len() ==> !entry_expired(#[trigger] kept@[k], now) && exists|
                        w: int,
                    |
                        0 <= w < i && self.entries@[w] == kept@[k],
                forall|k: int|
                    0 <= k < removed@.len() ==> entry_expired(#[trigger] removed@[k], now)
                        && self.entries@.contains(removed@[k]),
                forall|m: int|
                    0 <= m < i ==> if entry_expired(#[trigger] self.entries@[m], now) {
                        removed@.contains(self.entries@[m])
                    } else {
                        kept@.contains(self.entries@[m])
                    },
            decreases n - i,
        {
            let e = clone_entry(&self.entries[i]);
            let expired = match &e.expires_at {
                Some(x) => now > *x,
                None => false,
            };
            proof {
                assert(self.entries@.take(i + 1).drop_last() =~= self.entries@.take(i as int));
                assert(self.entries@.take(i + 1).last() == self.entries@[i as int]);
                lemma_entry_sum_push(kept@, e);
            }
            let ghost old_kept = kept@;
            let ghost old_removed = removed@;
            if expired {
                removed.push(e);
                proof {
                    assert(removed@[removed@.len() - 1] == self.entries@[i as int]);
                    assert forall|m: int|
                        0 <= m < i + 1 implies if entry_expired(
                        #[trigger] self.entries@[m],
                        now,
                    ) {
                        removed@.contains(self.entries@[m])
                    } else {
                        kept@.contains(self.entries@[m])
                    } by {
                        if m < i {
                            if entry_expired(self.entries@[m], now) {
                                let w = choose|w: int|
                                    0 <= w < old_removed.len() && old_removed[w]
                                        == self.entries@[m];
                                assert(removed@[w] == self.entries@[m]);
                            }
                        } else {
                            assert(removed@[removed@.len() - 1] == self.entries@[m]);
                        }
                    }
                }
            } else {
                kept.push(e);
                proof {
                    assert(kept@[kept@.len() - 1] == self.entries@[i as int]);
                    assert forall|a: int, b: int|
                        0 <= a < kept@.len() && 0 <= b < kept@.len() && a != b implies kept@[a].url@
                            != kept@[b].url@ by {
                        if a < kept@.len() - 1 && b < kept@.len() - 1 {
                            assert(kept@[a] == old_kept[a] && kept@[b] == old_kept[b]);
                        } else if a == kept@.len() - 1 {
                            assert(kept@[b] == old_kept[b]);
                            let w = choose|w: int|
                                0 <= w < i && self.entries@[w] == old_kept[b];
                            assert(self.entries@[w].url@ != self.entries@[i as int].url@);
                        } else {
                            assert(kept@[a] == old_kept[a]);
                            let w = choose|w: int|
                                0 <= w < i && self.entries@[w] == old_kept[a];
                            assert(self.entries@[w].url@ != self.entries@[i as int].url@);
                        }
                    }
                    assert forall|m: int|
                        0 <= m < i + 1 implies if entry_expired(
                        #[trigger] self.entries@[m],
                        now,
                    ) {
                        removed@.contains(self.entries@[m])
                    } else {
                        kept@.contains(self.entries@[m])
                    } by {
                        if m < i {
                            if !entry_expired(self.entries@[m], now) {
                                let w = choose|w: int|
                                    0 <= w < old_kept.len() && old_kept[w] == self.entries@[m];
                                assert(kept@[w] == self.entries@[m]);
                            }
                        } else {
                            assert(kept@[kept@.len() - 1] == self.entries@[m]);
                        }
                    }
                }
            }
            i += 1;
        }
        proof {
            assert(self.entries@.take(n as int) =~= self.entries@);
            lemma_entry_sum_nonneg(kept@);
        }
        self.entries = kept;
        removed
    }

    /// Evicts oldest-created entries until the recorded total fits well
    /// under the budget (four fifths of it, so the boundary is not hit
    /// again at once), handing back the evicted entries. Within budget,
    /// nothing changes.
    #[verifier::rlimit(60)]
    pub fn evict_to_budget(&mut self) -> (r: Vec<CacheEntry>)
        requires
            old(self).wf(),
        ensures
            final(self).wf(),
            final(self).cache_dir == old(self).cache_dir,
            final(self).max_cache_size == old(self).max_cache_size,
            final(self).max_age_secs == old(self).max_age_secs,
            sum_entry_sizes(old(self).entries@) <= old(self).max_cache_size ==> *final(self)
                == *old(self) && r@.len() == 0,
            sum_entry_sizes(final(self).entries@) <= final(self).max_cache_size,
            sum_entry_sizes(old(self).entries@) > old(self).max_cache_size ==> 10 * sum_entry_sizes(
                final(self).entries@,
            ) <= 8 * old(self).max_cache_size,
            forall|i: int|
                0 <= i < final(self).entries@.len() ==> old(self).entries@.contains(
                    #[trigger] final(self).entries@[i]),
            forall|i: int|
                0 <= i < r@.len() ==> old(self).entries@.contains(#[trigger] r@[i]),
            evicted_were_oldest_created(old(self).entries@, final(self).entries@),
    {
        let mut removed: Vec<CacheEntry> = Vec::new();
        proof {
            lemma_entry_sum_nonneg(self.entries@);
        }
        let total = self.get_cache_size();
        if total <= self.max_cache_size {
            return removed;
        }
        let budget = self.max_cache_size / 10 * 8;
        proof {
            assert(10 * (self.max_cache_size / 10 * 8) <= 8 * self.max_cache_size)
                by (nonlinear_arith);
            assert(self.max_cache_size / 10 * 8 <= self.max_cache_size) by (nonlinear_arith);
        }
        while self.get_cache_size_internal() > budget
            invariant
                old(self).wf(),
                self.wf(),
                self.cache_dir == old(self).cache_dir,
                self.max_cache_size == old(self).max_cache_size,
                self.max_age_secs == old(self).max_age_secs,
                10 * budget <= 8 * self.max_cache_size,
                budget <= self.max_cache_size,
                forall|i: int|
                    0 <= i < self.entries@.len() ==> old(self).entries@.contains(
                        #[trigger] self.entries@[i]),
                forall|i: int|
                    0 <= i < removed@.len() ==> old(self).entries@.contains(#[trigger] removed@[i]),
                evicted_were_oldest_created(old(self).entries@, self.entries@),
            decreases self.entries@.len(),
        {
            proof {
                lemma_entry_sum_nonneg(self.entries@);
            }
            if self.entries.is_empty() {
                return removed;
            }
            let n = self.entries.len();
            let mut oldest: usize = 0;
            let mut k: usize = 1;
            while k < n
                invariant
                    n == self.entries@.len(),
                    oldest < n,
                    k <= n,
                    forall|m: int|
                        0 <= m < k ==> self.entries@[oldest as int].created_at
                            <= self.entries@[m].created_at,
                decreases n - k,
            {
                if self.entries[k].created_at < self.entries[oldest].created_at {
                    oldest = k;
                }
                k += 1;
            }
            let ghost before = self.entries@;
            let e = self.entries.remove(oldest);
            proof {
                lemma_entry_sum_remove(before, oldest as int);
                lemma_entry_sum_nonneg(self.entries@);
                let oldent = old(self).entries@;
                let after = self.entries@;
                assert forall|j: int, i: int|
                    0 <= j < oldent.len() && !has_url(after, (#[trigger] oldent[j]).url@) && 0 <= i
                        < after.len() implies oldent[j].created_at <= (
                #[trigger] after[i]).created_at by {
                    let bi: int = if i < oldest {
                        i
                    } else {
                        i + 1
                    };
                    assert(after[i] == before[bi]);
                    if has_url(before, oldent[j].url@) {
                        let w = choose|w: int|
                            0 <= w < before.len() && before[w].url@ == oldent[j].url@;
                        if w != oldest {
                            let ai: int = if w < oldest {
                                w
                            } else {
                                w - 1
                            };
                            assert(after[ai] == before[w]);
                            assert(has_url(after, oldent[j].url@));
                        } else {
                            assert(oldent.contains(before[oldest as int]));
                            let j2 = choose|j2: int|
                                0 <= j2 < oldent.len() && oldent[j2] == before[oldest as int];
                            if j2 != j {
                                assert(oldent[j2].url@ != oldent[j].url@);
                            }
                            assert(oldent[j] == before[oldest as int]);
                            assert(before[oldest as int].created_at <= before[bi].created_at);
                        }
                    } else {
                        assert(oldent[j].created_at <= before[bi].created_at);
                    }
                }
            }
            removed.push(e);
        }
        removed
    }

    /// Drops every entry, handing all of them back.
    pub fn clear(&mut self) -> (r: Vec<CacheEntry>)
        ensures
            final(self).wf(),
            final(self).entries@.len() == 0,
            final(self).cache_dir == old(self).cache_dir,
            final(self).max_cache_size == old(self).max_cache_size,
            final(self).max_age_secs == old(self).max_age_secs,
            r@ == old(self).entries@,
    {
        let mut out: Vec<CacheEntry> = Vec::new();
        core::mem::swap(&mut out, &mut self.entries);
        out
    }

    /// The total recorded size of every cached artifact.
    pub fn get_cache_size(&self) -> (r: u64)
        requires
            self.wf(),
        ensures
            r == sum_entry_sizes(self.entries@),
    {
        self.get_cache_size_internal()
    }

    fn get_cache_size_internal(&self) -> (r: u64)
        requires
            sum_entry_sizes(self.entries@) <= u64::MAX,
        ensures
            r == sum_entry_sizes(self.entries@),
    {
        let n = self.entries.len();
        let mut total: u64 = 0;
        let mut i: usize = 0;
        while i < n
            invariant
                n == self.entries@.len(),
                i <= n,
                sum_entry_sizes(self.entries@) <= u64::MAX,
                total == sum_entry_sizes(self.entries@.take(i as int)),
            decreases n - i,
        {
            proof {
                assert(self.entries@.take(i + 1).drop_last() =~= self.entries@.take(i as int));
                assert(self.entries@.take(i + 1).last() == self.entries@[i as int]);
                lemma_entry_sum_prefix(self.entries@, i + 1);
                lemma_entry_sum_nonneg(self.entries@.take(i as int));
            }
            total = total + self.entries[i].size;
            i += 1;
        }
        proof {
            assert(self.entries@.take(n as int) =~= self.entries@);
        }
        total
    }

    /// The entry count, total recorded size, and size budget.
    pub fn get_cache_info(&self) -> (r: (usize, u64, u64))
        requires
            self.wf(),
        ensures
            r.0 == self.entries@.len(),
            r.1 == sum_entry_sizes(self.entries@),
            r.2 == self.max_cache_size,
    {
        let count = self.entries.len();
        let size = self.get_cache_size();
        (count, size, self.max_cache_size)
    }
}

/// The position of the entry describing `url`, if any.
fn index_of_url(entries: &Vec<CacheEntry>, url: &str) -> (r: Option<usize>)
    ensures
        match r {
            Some(i) => i < entries@.len() && entries@[i as int].url@ == url@,
            None => !has_url(entries@, url@),
        },
{
    let n = entries.len();
    let mut i: usize = 0;
    while i < n
        invariant
            n == entries@.len(),
            i <= n,
            forall|k: int| 0 <= k < i ==> entries@[k].url@ != url@,
        decreases n - i,
    {
        if crate::strutil::str_eq(url, entries[i].url.as_str()) {
            return Some(i);
        }
        i += 1;
    }
    None
}

fn copy_string(s: &String) -> (r: String)
    ensures
        r@ == s@,
{
    s.clone()
}

fn clone_entry(e: &CacheEntry) -> (r: CacheEntry)
    ensures
        r == *e,
{
    CacheEntry {
        url: e.url.clone(),
        file_path: e.file_path.clone(),
        hash: e.hash.clone(),
        size: e.size,
        created_at: e.created_at,
        expires_at: match &e.expires_at {
            Some(x) => Some(*x),
            None => None,
        },
        etag: match &e.etag {
            Some(x) => Some(x.clone()),
            None => None,
        },
        content_type: match &e.content_type {
            Some(x) => Some(x.clone()),
            None => None,
        },
    }
}

} // verus!
