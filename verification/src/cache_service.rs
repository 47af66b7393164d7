//! The cache operations offered to the administrator.

use vstd::prelude::*;
use crate::cache::{CachedEntryView, CdnCache, settled, without_prefix};
use crate::text::{copy_str, has_prefix};

verus! {

pub struct CacheService {
    cache: CdnCache,
}

/// The outcome of an administrative cache operation.
pub enum CacheOperationResult {
    Success { message: String },
    Stats { entry_count: u64 },
}

impl View for CacheService {
    type V = Map<Seq<char>, CachedEntryView>;

    closed spec fn view(&self) -> Map<Seq<char>, CachedEntryView> {
        self.cache@
    }
}

impl CacheService {
    /// The cache the service works on.
    pub closed spec fn inner(&self) -> CdnCache {
        self.cache
    }

    pub fn new(cache: CdnCache) -> (r: Self)
        ensures
            r.inner() == cache,
            r@ == cache@,
    {
        Self { cache }
    }

    pub fn cache(&self) -> (r: &CdnCache)
        ensures
            *r == self.inner(),
            r@ == self@,
            r.entry_estimate() == self.entry_estimate(),
    {
        &self.cache
    }

    /// Hands back the cache.
    pub fn into_cache(self) -> (r: CdnCache)
        ensures
            r == self.inner(),
            r@ == self@,
    {
        self.cache
    }

    /// Removes the entry for `path`; while the cache is within its capacity,
    /// every other entry stays as it was.
    pub fn purge(&mut self, path: &str) -> (r: CacheOperationResult)
        ensures
            settled(old(self).inner(), final(self).inner()),
            final(self)@.submap_of(old(self)@.remove(path@)),
            old(self).inner().within_capacity() ==> final(self)@ == old(self)@.remove(path@),
            r matches CacheOperationResult::Success { message } && message@ == "Purged: "@ + path@,
    {
        self.cache.remove(path);
        CacheOperationResult::Success { message: copy_str("Purged: ").concat(path) }
    }

    /// Removes the entries whose key starts with `prefix`; while the cache is
    /// within its capacity, every other entry stays as it was.
    pub fn purge_prefix(&mut self, prefix: &str) -> (r: CacheOperationResult)
        ensures
            settled(old(self).inner(), final(self).inner()),
            final(self)@.submap_of(without_prefix(old(self)@, prefix@)),
            forall|k: Seq<char>| #[trigger] final(self)@.contains_key(k) ==> !has_prefix(k, prefix@),
            old(self).inner().within_capacity() ==> final(self)@ == without_prefix(old(self)@, prefix@),
            r matches CacheOperationResult::Success { message } && message@ == "Purged prefix: "@ + prefix@,
    {
        self.cache.purge_by_prefix(prefix);
        CacheOperationResult::Success { message: copy_str("Purged prefix: ").concat(prefix) }
    }

    /// Removes every entry.
    pub fn purge_all(&mut self) -> (r: CacheOperationResult)
        ensures
            settled(old(self).inner(), final(self).inner()),
            final(self)@.is_empty(),
            r matches CacheOperationResult::Success { message } && message@ == "All cache cleared"@,
    {
        self.cache.clear();
        CacheOperationResult::Success { message: copy_str("All cache cleared") }
    }

    /// The entry count that the service's cache keeps.
    pub closed spec fn entry_estimate(&self) -> u64 {
        self.cache.entry_estimate()
    }

    /// The cache's estimate of its number of entries.
    pub fn stats(&self) -> (r: CacheOperationResult)
        ensures
            r matches CacheOperationResult::Stats { entry_count } && entry_count == self.entry_estimate(),
    {
        CacheOperationResult::Stats { entry_count: self.cache.entry_count() }
    }
}

} // verus!
