//! A time-bounded cache for source metadata lookups, keyed by URL. The
//! metadata itself is carried as an opaque serialized payload; the cache
//! only decides presence and freshness.

use vstd::prelude::*;
use vstd::string::StringExecFns;

use crate::text::str_eq;

verus! {

/// One cached lookup.
#[derive(Debug)]
pub struct CacheEntry {
    pub url: String,
    pub payload: String,
    pub stored_at: i64,
}

/// Mathematical image of a cache entry.
#[verifier::ext_equal]
pub ghost struct CacheEntryView {
    pub url: Seq<char>,
    pub payload: Seq<char>,
    pub stored_at: i64,
}

impl View for CacheEntry {
    type V = CacheEntryView;

    open spec fn view(&self) -> CacheEntryView {
        CacheEntryView { url: self.url@, payload: self.payload@, stored_at: self.stored_at }
    }
}

impl DeepView for CacheEntry {
    type V = CacheEntryView;

    open spec fn deep_view(&self) -> CacheEntryView {
        self.view()
    }
}

impl Clone for CacheEntry {
    fn clone(&self) -> (r: Self)
        ensures
            r@ == self@,
    {
        CacheEntry {
            url: self.url.clone(),
            payload: self.payload.clone(),
            stored_at: self.stored_at,
        }
    }
}

/// An entry is still served while less than the time-to-live has passed
/// since it was stored.
pub open spec fn spec_cache_fresh(e: CacheEntryView, now: i64, ttl_millis: u64) -> bool {
    now - e.stored_at < ttl_millis
}

/// The cache: at most one entry per URL, each expiring on its own clock.
pub struct VideoInfoCache {
    pub ttl_millis: u64,
    pub entries: Vec<CacheEntry>,
}

impl VideoInfoCache {
    /// The cache invariant: URLs are unique.
    pub open spec fn wf(self) -> bool {
        forall|i: int, j: int|
            0 <= i < j < self.entries@.len() ==> #[trigger] self.entries.deep_view()[i].url
                != #[trigger] self.entries.deep_view()[j].url
    }

    /// An empty cache with the given time-to-live, in milliseconds.
    pub fn new(ttl_millis: u64) -> (r: Self)
        ensures
            r.wf(),
            r.entries@.len() == 0,
            r.ttl_millis == ttl_millis,
    {
        VideoInfoCache { ttl_millis, entries: Vec::new() }
    }

    /// Serves a cached payload: exactly the stored one, and only while
    /// its entry is fresh at `now`.
    #[verifier::loop_isolation(false)]
    pub fn get(&self, url: &str, now: i64) -> (r: Option<String>)
        requires
            self.wf(),
        ensures
            r is Some <==> exists|i: int|
                0 <= i < self.entries@.len() && (#[trigger] self.entries.deep_view()[i]).url
                    == url@ && spec_cache_fresh(self.entries.deep_view()[i], now, self.ttl_millis),
            r matches Some(p) ==> exists|i: int|
                0 <= i < self.entries@.len() && (#[trigger] self.entries.deep_view()[i]).url
                    == url@ && p@ == self.entries.deep_view()[i].payload,
    {
        let n = self.entries.len();
        let mut i: usize = 0;
        while i < n
            invariant
                i <= n,
                forall|j: int| 0 <= j < i ==> self.entries.deep_view()[j].url != url@,
            decreases n - i,
        {
            if str_eq(self.entries[i].url.as_str(), url) {
                proof {
                    assert(self.entries.deep_view()[i as int].url == url@);
                }
                let e = &self.entries[i];
                let age: i128 = (now as i128) - (e.stored_at as i128);
                if age < (self.ttl_millis as i128) {
                    return Some(e.payload.clone());
                }
                proof {
                    assert forall|k: int|
                        0 <= k < self.entries@.len() && (#[trigger] self.entries.deep_view()[
                        k]).url == url@ implies !spec_cache_fresh(
                        self.entries.deep_view()[k],
                        now,
                        self.ttl_millis,
                    ) by {
                        if k != i {
                            assert(self.entries.deep_view()[i as int].url == url@);
                        }
                    }
                }
                return None;
            }
            i += 1;
        }
        None
    }

    /// Stores a payload for a URL, replacing any earlier entry for it.
    pub fn set(&mut self, url: &str, payload: String, now: i64)
        requires
            old(self).wf(),
        ensures
            final(self).wf(),
            final(self).ttl_millis == old(self).ttl_millis,
            final(self).entries.deep_view() == old(self).entries.deep_view().filter(
                |e: CacheEntryView| e.url != url@,
            ).push(CacheEntryView { url: url@, payload: payload@, stored_at: now }),
    {
        let kept = cache_without_url(&self.entries, url);
        self.entries = kept;
        let ghost prev = self.entries.deep_view();
        let ghost pv = payload@;
        self.entries.push(CacheEntry { url: url.to_owned(), payload, stored_at: now });
        proof {
            assert(self.entries.deep_view() =~= prev.push(
                CacheEntryView { url: url@, payload: pv, stored_at: now },
            ));
        }
    }

    /// Drops every entry that is no longer fresh at `now`.
    #[verifier::loop_isolation(false)]
    pub fn clear_expired(&mut self, now: i64)
        requires
            old(self).wf(),
        ensures
            final(self).wf(),
            final(self).ttl_millis == old(self).ttl_millis,
            final(self).entries.deep_view() == old(self).entries.deep_view().filter(
                |e: CacheEntryView| spec_cache_fresh(e, now, old(self).ttl_millis),
            ),
    {
        let ttl = self.ttl_millis;
        let mut kept: Vec<CacheEntry> = Vec::new();
        let ghost fpred = |e: CacheEntryView| spec_cache_fresh(e, now, ttl);
        proof {
            assert(self.entries.deep_view().subrange(0, 0).filter(fpred) =~= Seq::<
                CacheEntryView,
            >::empty());
        }
        let n = self.entries.len();
        let mut k: usize = 0;
        while k < n
            invariant
                k <= n,
                n == self.entries@.len(),
                ttl == self.ttl_millis,
                *self == *old(self),
                kept.deep_view() == self.entries.deep_view().subrange(0, k as int).filter(fpred),
                forall|a: int|
                    0 <= a < kept@.len() ==> exists|oi: int|
                        0 <= oi < k && #[trigger] kept.deep_view()[a]
                            == self.entries.deep_view()[oi],
                forall|a: int, b: int|
                    0 <= a < b < kept@.len() ==> #[trigger] kept.deep_view()[a].url
                        != #[trigger] kept.deep_view()[b].url,
            decreases n - k,
        {
            let ghost prefix = self.entries.deep_view().subrange(0, k as int);
            let ghost cur = self.entries.deep_view()[k as int];
            proof {
                prefix.lemma_filter_push(cur, fpred);
                assert(self.entries.deep_view().subrange(0, k + 1) =~= prefix.push(cur));
            }
            let e = &self.entries[k];
            let age: i128 = (now as i128) - (e.stored_at as i128);
            if age < (ttl as i128) {
                proof {
                    assert(spec_cache_fresh(cur, now, ttl));
                    assert forall|a: int|
                        0 <= a < kept@.len() implies #[trigger] kept.deep_view()[a].url
                        != cur.url by {
                        let oi = choose|oi: int|
                            0 <= oi < k && kept.deep_view()[a] == self.entries.deep_view()[oi];
                        assert(self.entries.deep_view()[oi].url != self.entries.deep_view()[
                            k as int].url);
                    }
                }
                kept.push(self.entries[k].clone());
                proof {
                    assert(kept.deep_view()[kept@.len() - 1] == cur);
                }
            } else {
                proof {
                    assert(!spec_cache_fresh(cur, now, ttl));
                }
            }
            proof {
                assert(kept.deep_view() =~= self.entries.deep_view().subrange(0, k + 1).filter(
                    fpred,
                ));
            }
            k += 1;
        }
        proof {
            assert(self.entries.deep_view().subrange(0, n as int) =~= self.entries.deep_view());
        }
        self.entries = kept;
    }
}

/// The entries that survive dropping one URL.
#[verifier::loop_isolation(false)]
fn cache_without_url(entries: &Vec<CacheEntry>, url: &str) -> (r: Vec<CacheEntry>)
    requires
        forall|i: int, j: int|
            0 <= i < j < entries@.len() ==> #[trigger] entries.deep_view()[i].url
                != #[trigger] entries.deep_view()[j].url,
    ensures
        r.deep_view() == entries.deep_view().filter(|e: CacheEntryView| e.url != url@),
        forall|a: int, b: int|
            0 <= a < b < r@.len() ==> #[trigger] r.deep_view()[a].url
                != #[trigger] r.deep_view()[b].url,
        forall|a: int| 0 <= a < r@.len() ==> (#[trigger] r.deep_view()[a]).url != url@,
{
    let ghost upred = |e: CacheEntryView| e.url != url@;
    let mut kept: Vec<CacheEntry> = Vec::new();
    proof {
        assert(entries.deep_view().subrange(0, 0).filter(upred) =~= Seq::<
            CacheEntryView,
        >::empty());
    }
    let n = entries.len();
    let mut k: usize = 0;
    while k < n
        invariant
            k <= n,
            kept.deep_view() == entries.deep_view().subrange(0, k as int).filter(upred),
            forall|a: int|
                0 <= a < kept@.len() ==> exists|oi: int|
                    0 <= oi < k && #[trigger] kept.deep_view()[a] == entries.deep_view()[oi],
            forall|a: int, b: int|
                0 <= a < b < kept@.len() ==> #[trigger] kept.deep_view()[a].url
                    != #[trigger] kept.deep_view()[b].url,
            forall|a: int| 0 <= a < kept@.len() ==> (#[trigger] kept.deep_view()[a]).url != url@,
        decreases n - k,
    {
        let ghost prefix = entries.deep_view().subrange(0, k as int);
        let ghost cur = entries.deep_view()[k as int];
        proof {
            prefix.lemma_filter_push(cur, upred);
            assert(entries.deep_view().subrange(0, k + 1) =~= prefix.push(cur));
        }
        if !str_eq(entries[k].url.as_str(), url) {
            proof {
                assert forall|a: int|
                    0 <= a < kept@.len() implies #[trigger] kept.deep_view()[a].url != cur.url by {
                    let oi = choose|oi: int|
                        0 <= oi < k && kept.deep_view()[a] == entries.deep_view()[oi];
                    assert(entries.deep_view()[oi].url != entries.deep_view()[k as int].url);
                }
            }
            kept.push(entries[k].clone());
            proof {
                assert(kept.deep_view()[kept@.len() - 1] == cur);
            }
        }
        proof {
            assert(kept.deep_view() =~= entries.deep_view().subrange(0, k + 1).filter(upred));
        }
        k += 1;
    }
    proof {
        assert(entries.deep_view().subrange(0, n as int) =~= entries.deep_view());
    }
    kept
}

} // verus!
