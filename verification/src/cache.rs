//! The response cache: a `moka` cache keyed by request path.

use std::sync::Arc;
use vstd::prelude::*;
use crate::text::{has_prefix, str_starts_with};

verus! {

/// A response kept in the cache.
#[derive(Clone, Debug)]
pub struct CachedResponse {
    pub body: Vec<u8>,
    pub content_type: String,
    pub etag: String,
    pub headers: Vec<(String, String)>,
}

/// The mathematical content of a [`CachedResponse`].
pub struct CachedResponseView {
    pub body: Seq<u8>,
    pub content_type: Seq<char>,
    pub etag: Seq<char>,
    pub headers: Seq<(Seq<char>, Seq<char>)>,
}

/// The views of a list of header pairs.
pub open spec fn headers_view(h: Seq<(String, String)>) -> Seq<(Seq<char>, Seq<char>)> {
    h.map_values(|p: (String, String)| (p.0@, p.1@))
}

impl View for CachedResponse {
    type V = CachedResponseView;

    open spec fn view(&self) -> CachedResponseView {
        CachedResponseView {
            body: self.body@,
            content_type: self.content_type@,
            etag: self.etag@,
            headers: headers_view(self.headers@),
        }
    }
}

/// Copies a list of header pairs.
pub fn copy_headers(h: &Vec<(String, String)>) -> (r: Vec<(String, String)>)
    ensures
        headers_view(r@) == headers_view(h@),
{
    let mut r: Vec<(String, String)> = Vec::new();
    let n = h.len();
    let mut i: usize = 0;
    while i < n
        invariant
            n == h@.len(),
            i <= n,
            r@.len() == i,
            forall|j: int| 0 <= j < i ==> (#[trigger] r@[j]).0@ == h@[j].0@ && r@[j].1@ == h@[j].1@,
        decreases n - i,
    {
        let pair = (h[i].0.clone(), h[i].1.clone());
        r.push(pair);
        i = i + 1;
    }
    assert(headers_view(r@) =~= headers_view(h@));
    r
}

/// Copies a byte vector.
pub fn copy_bytes(b: &Vec<u8>) -> (r: Vec<u8>)
    ensures
        r@ == b@,
{
    let r = b.clone();
    assert(r@ =~= b@);
    r
}

impl CachedResponse {
    /// A field-by-field copy of the response.
    pub fn duplicate(&self) -> (r: CachedResponse)
        ensures
            r@ == self@,
    {
        CachedResponse {
            body: copy_bytes(&self.body),
            content_type: self.content_type.clone(),
            etag: self.etag.clone(),
            headers: copy_headers(&self.headers),
        }
    }
}

#[verifier::external_type_specification]
#[verifier::external_body]
#[verifier::reject_recursive_types(K)]
#[verifier::reject_recursive_types(V)]
#[verifier::reject_recursive_types(S)]
pub struct ExMokaCache<K, V, S>(moka::sync::Cache<K, V, S>);

/// A stored response with the time (seconds since the UNIX epoch) from which
/// it is no longer served.
#[derive(Clone)]
pub struct CachedEntry {
    pub response: Arc<CachedResponse>,
    pub expires_at: u64,
}

/// The mathematical content of a [`CachedEntry`].
pub struct CachedEntryView {
    pub response: CachedResponseView,
    pub expires_at: u64,
}

impl View for CachedEntry {
    type V = CachedEntryView;

    open spec fn view(&self) -> CachedEntryView {
        CachedEntryView { response: self.response@, expires_at: self.expires_at }
    }
}

/// An entry is served at time `now` when `now` is before its expiry time.
pub open spec fn is_fresh(e: CachedEntryView, now: u64) -> bool {
    now < e.expires_at
}

/// The expiry time of an entry stored at `now` for `ttl` seconds; a time past
/// the largest `u64` is taken as that largest value.
pub open spec fn expiry_time(now: u64, ttl: u64) -> u64 {
    if now + ttl > u64::MAX {
        u64::MAX
    } else {
        (now + ttl) as u64
    }
}

/// The `moka` cache that holds the entries, keyed by request path.
pub type ResponseStore = moka::sync::Cache<String, CachedEntry>;

/// The entries that a `moka` cache can hand out: for each key, the entry that
/// `get` would return.
pub uninterp spec fn cached_entries(cache: ResponseStore) -> Map<Seq<char>, CachedEntryView>;

/// The maximum number of entries a `moka` cache was built with.
pub uninterp spec fn moka_capacity(cache: ResponseStore) -> u64;

/// The number of entries that a `moka` cache's size accounting holds: those
/// admitted, those inserted but not yet admitted, and those removed but not yet
/// swept out (each entry weighs 1). The cache evicts or refuses an entry only
/// when this number would exceed its capacity.
pub uninterp spec fn moka_accounted(cache: ResponseStore) -> nat;

/// The cache accounts for no more entries than its capacity, so it evicts and
/// refuses nothing.
pub open spec fn moka_within_capacity(cache: ResponseStore) -> bool {
    moka_accounted(cache) <= moka_capacity(cache)
}

/// Builds a cache with `Cache::builder().max_capacity(..).build()` of
/// `moka::sync` (no expiry): a new cache holds no entry, accounts for none,
/// and has the capacity it was given.
#[verifier::external_body]
fn moka_build(max_capacity: u64) -> (c: ResponseStore)
    ensures
        cached_entries(c).is_empty(),
        moka_capacity(c) == max_capacity,
        moka_accounted(c) == 0,
{
    moka::sync::Cache::builder().max_capacity(max_capacity).build()
}

/// Calls `moka::sync::Cache::get`, which looks the key up first and hands back
/// a clone of the stored entry (the same `Arc`, the same time), then records
/// the read, which may run pending maintenance. So the result is the entry
/// held before the call. Maintenance can only drop entries, and it drops none
/// while the cache accounts for no more entries than its capacity.
#[verifier::external_body]
fn moka_get(cache: &mut ResponseStore, key: &str) -> (r: Option<CachedEntry>)
    ensures
        match r {
            Some(v) => cached_entries(*old(cache)).contains_key(key@) && v@ == cached_entries(*old(cache))[key@],
            None => !cached_entries(*old(cache)).contains_key(key@),
        },
        cached_entries(*final(cache)).submap_of(cached_entries(*old(cache))),
        moka_within_capacity(*old(cache)) ==> cached_entries(*final(cache)) == cached_entries(*old(cache)),
        moka_capacity(*final(cache)) == moka_capacity(*old(cache)),
        moka_accounted(*final(cache)) <= moka_accounted(*old(cache)),
{
    cache.get(key)
}

/// Calls `moka::sync::Cache::insert`, which accounts for at most one more
/// entry. Afterwards `get` gives for `key` either `value` or nothing, and for
/// any other key what it gave before or nothing; when the cache then accounts
/// for no more entries than its capacity, nothing is evicted or refused, and
/// `get` gives `value` for `key` and the same as before for the other keys.
#[verifier::external_body]
fn moka_insert(cache: &mut ResponseStore, key: String, value: CachedEntry)
    ensures
        cached_entries(*final(cache)).submap_of(cached_entries(*old(cache)).insert(key@, value@)),
        moka_accounted(*old(cache)) + 1 <= moka_capacity(*old(cache))
            ==> cached_entries(*final(cache)) == cached_entries(*old(cache)).insert(key@, value@),
        moka_capacity(*final(cache)) == moka_capacity(*old(cache)),
        moka_accounted(*final(cache)) <= moka_accounted(*old(cache)) + 1,
{
    cache.insert(key, value)
}

/// Calls `moka::sync::Cache::remove` and drops the value it hands back.
/// Afterwards `get` gives nothing for `key`; the other entries stay unless
/// maintenance evicts, which it does not while the cache accounts for no more
/// entries than its capacity.
#[verifier::external_body]
fn moka_remove(cache: &mut ResponseStore, key: &str)
    ensures
        cached_entries(*final(cache)).submap_of(cached_entries(*old(cache)).remove(key@)),
        moka_within_capacity(*old(cache))
            ==> cached_entries(*final(cache)) == cached_entries(*old(cache)).remove(key@),
        moka_capacity(*final(cache)) == moka_capacity(*old(cache)),
        moka_accounted(*final(cache)) <= moka_accounted(*old(cache)),
{
    cache.remove(key);
}

/// Walks `moka::sync::Cache::iter` and collects the keys it yields. The
/// iterator reads without recording (no maintenance runs) and yields each held
/// entry once and no other, so the keys are exactly the held ones.
#[verifier::external_body]
fn moka_keys(cache: &mut ResponseStore) -> (keys: Vec<String>)
    ensures
        cached_entries(*final(cache)) == cached_entries(*old(cache)),
        moka_capacity(*final(cache)) == moka_capacity(*old(cache)),
        moka_accounted(*final(cache)) == moka_accounted(*old(cache)),
        forall|i: int| 0 <= i < keys@.len() ==> cached_entries(*old(cache)).contains_key(#[trigger] keys@[i]@),
        forall|k: Seq<char>| #[trigger] cached_entries(*old(cache)).contains_key(k)
            ==> exists|i: int| 0 <= i < keys@.len() && #[trigger] keys@[i]@ == k,
{
    let mut keys = Vec::new();
    for (k, _) in cache.iter() {
        keys.push((*k).clone());
    }
    keys
}

/// The entry count that a `moka` cache keeps: the number of entries as of its
/// last maintenance run (it may still count entries pending removal or miss
/// entries pending admission). It changes only when the cache is used.
pub uninterp spec fn moka_entry_estimate(cache: ResponseStore) -> u64;

/// Calls `moka::sync::Cache::entry_count`, which reads the entry count that
/// the cache keeps. That count covers admitted entries not yet swept out, so
/// it is at most the number of entries the cache accounts for.
#[verifier::external_body]
fn moka_entry_count(cache: &ResponseStore) -> (n: u64)
    ensures
        n == moka_entry_estimate(*cache),
        n <= moka_accounted(*cache),
{
    cache.entry_count()
}

/// Being a submap is transitive.
pub proof fn lemma_submap_trans<K, V>(a: Map<K, V>, b: Map<K, V>, c: Map<K, V>)
    requires
        a.submap_of(b),
        b.submap_of(c),
    ensures
        a.submap_of(c),
{
    assert forall|k: K| #[trigger] a.dom().contains(k) implies c.dom().contains(k) && a[k] == c[k] by {
        assert(b.dom().contains(k));
    }
}

/// Removing a key gives a submap.
pub proof fn lemma_remove_submap<K, V>(a: Map<K, V>, k: K)
    ensures
        a.remove(k).submap_of(a),
{
}

/// Reading after a write: once `value` was stored under `key` (the entries
/// afterwards being a part of the entries before with `key` set to `value`),
/// any later read of `key`, while entries only expire or get evicted, gives
/// `value` or nothing.
pub proof fn lemma_read_after_write<K, V>(before: Map<K, V>, after_write: Map<K, V>, at_read: Map<K, V>, key: K, value: V)
    requires
        after_write.submap_of(before.insert(key, value)),
        at_read.submap_of(after_write),
    ensures
        at_read.contains_key(key) ==> at_read[key] == value,
{
    lemma_submap_trans(at_read, after_write, before.insert(key, value));
    if at_read.contains_key(key) {
        assert(before.insert(key, value).contains_key(key));
    }
}

/// Reading after a removal: once `key` was removed, any later read of `key`,
/// while entries only expire or get evicted, gives nothing.
pub proof fn lemma_read_after_remove<K, V>(before: Map<K, V>, after_remove: Map<K, V>, at_read: Map<K, V>, key: K)
    requires
        after_remove.submap_of(before.remove(key)),
        at_read.submap_of(after_remove),
    ensures
        !at_read.contains_key(key),
{
    lemma_submap_trans(at_read, after_remove, before.remove(key));
    if at_read.contains_key(key) {
        assert(before.remove(key).contains_key(key));
    }
}

/// Expired entries are not served: once `e` was stored under `key` (the
/// entries afterwards being a part of the entries before with `key` set to
/// `e`), a read of `key` at or after `e`'s expiry time, while entries only get
/// evicted, finds no fresh entry.
pub proof fn lemma_expired_not_served(
    before: Map<Seq<char>, CachedEntryView>,
    after_write: Map<Seq<char>, CachedEntryView>,
    at_read: Map<Seq<char>, CachedEntryView>,
    key: Seq<char>,
    e: CachedEntryView,
    now: u64,
)
    requires
        after_write.submap_of(before.insert(key, e)),
        at_read.submap_of(after_write),
        e.expires_at <= now,
    ensures
        !(at_read.contains_key(key) && is_fresh(at_read[key], now)),
{
    lemma_read_after_write(before, after_write, at_read, key, e);
}

/// The entries of `m` whose key does not start with `prefix`.
pub open spec fn without_prefix<V>(m: Map<Seq<char>, V>, prefix: Seq<char>) -> Map<Seq<char>, V> {
    m.restrict(m.dom().filter(|k: Seq<char>| !has_prefix(k, prefix)))
}

/// What a purge by prefix keeps: no key that starts with `prefix` (whatever
/// follows it, further `/`s included), and every other key of `m` with its
/// entry; nothing that `m` does not hold.
pub proof fn lemma_without_prefix(m: Map<Seq<char>, CachedEntryView>, prefix: Seq<char>, k: Seq<char>)
    ensures
        (exists|rest: Seq<char>| k == prefix + rest) ==> !without_prefix(m, prefix).contains_key(k),
        !(exists|rest: Seq<char>| k == prefix + rest) && m.contains_key(k)
            ==> without_prefix(m, prefix).contains_key(k) && without_prefix(m, prefix)[k] == m[k],
        !m.contains_key(k) ==> !without_prefix(m, prefix).contains_key(k),
{
    crate::text::lemma_has_prefix_iff_concat(k, prefix);
}

/// Every key starts with the empty prefix: whatever purging by it leaves (a
/// part of the entries without that prefix) is empty.
pub proof fn lemma_empty_prefix_purges_all<V>(before: Map<Seq<char>, V>, after: Map<Seq<char>, V>)
    requires
        after.submap_of(without_prefix(before, Seq::empty())),
    ensures
        after.is_empty(),
{
    let kept = without_prefix(before, Seq::<char>::empty());
    assert forall|k: Seq<char>| !after.contains_key(k) by {
        assert(k.subrange(0, 0) =~= Seq::<char>::empty());
        assert(has_prefix(k, Seq::<char>::empty()));
        assert(!before.dom().filter(|j: Seq<char>| !has_prefix(j, Seq::<char>::empty())).contains(k));
        assert(!kept.contains_key(k));
    }
    assert(after.dom() =~= Set::<Seq<char>>::empty());
}

pub struct CdnCache {
    cache: ResponseStore,
    default_ttl: u64,
}

impl View for CdnCache {
    type V = Map<Seq<char>, CachedEntryView>;

    closed spec fn view(&self) -> Map<Seq<char>, CachedEntryView> {
        cached_entries(self.cache)
    }
}

/// What a cache operation other than an insertion keeps, from the cache `a`
/// it starts on to the cache `b` it leaves: the capacity and the default
/// lifetime stay, and `b` accounts for no more entries than `a`.
pub open spec fn settled(a: CdnCache, b: CdnCache) -> bool {
    &&& b.capacity() == a.capacity()
    &&& b.default_ttl() == a.default_ttl()
    &&& b.accounted() <= a.accounted()
}

impl CdnCache {
    /// A cache of at most `max_capacity` entries, whose entries live
    /// `default_ttl` seconds unless stored with a TTL of their own.
    pub fn new(max_capacity: u64, default_ttl: u64) -> (r: Self)
        ensures
            r@.is_empty(),
            r.default_ttl() == default_ttl,
            r.capacity() == max_capacity,
            r.accounted() == 0,
    {
        CdnCache { cache: moka_build(max_capacity), default_ttl }
    }

    /// The lifetime of entries stored without a TTL of their own.
    pub closed spec fn default_ttl(&self) -> u64 {
        self.default_ttl
    }

    /// The maximum number of entries.
    pub closed spec fn capacity(&self) -> u64 {
        moka_capacity(self.cache)
    }

    /// The number of entries that the cache accounts for (see
    /// `moka_accounted`): it grows by at most one per insertion and never
    /// otherwise.
    pub closed spec fn accounted(&self) -> nat {
        moka_accounted(self.cache)
    }

    /// The cache accounts for no more entries than its capacity; it then
    /// evicts nothing.
    pub open spec fn within_capacity(&self) -> bool {
        self.accounted() <= self.capacity()
    }

    /// The response stored under `key`, when an entry is held for it and has
    /// not expired at time `now`; an expired entry is dropped.
    pub fn get(&mut self, key: &str, now: u64) -> (r: Option<Arc<CachedResponse>>)
        ensures
            settled(*old(self), *final(self)),
            match r {
                Some(v) => old(self)@.contains_key(key@) && is_fresh(old(self)@[key@], now)
                    && v@ == old(self)@[key@].response,
                None => !(old(self)@.contains_key(key@) && is_fresh(old(self)@[key@], now)),
            },
            final(self)@.submap_of(old(self)@),
            old(self).within_capacity() ==> final(self)@ == (if old(self)@.contains_key(key@) && !is_fresh(old(self)@[key@], now) {
                old(self)@.remove(key@)
            } else {
                old(self)@
            }),
    {
        let ghost before = self@;
        match moka_get(&mut self.cache, key) {
            Some(entry) => {
                if now < entry.expires_at {
                    Some(entry.response)
                } else {
                    let ghost held = self@;
                    moka_remove(&mut self.cache, key);
                    proof {
                        lemma_remove_submap(held, key@);
                        lemma_submap_trans(self@, held.remove(key@), held);
                        lemma_submap_trans(self@, held, before);
                        if self@.contains_key(key@) {
                            assert(held.remove(key@).contains_key(key@));
                        }
                    }
                    None
                }
            },
            None => {
                proof {
                    if self@.contains_key(key@) {
                        assert(before.contains_key(key@));
                    }
                }
                None
            },
        }
    }

    /// Stores `response` under `key` at time `now`, to be served for `ttl`
    /// seconds, or for the cache's default lifetime when no TTL is given. A TTL
    /// of `Some(0)` means "do not cache": the cache is left untouched. While
    /// the cache stays within its capacity, the entry is held afterwards and
    /// nothing else changes.
    pub fn insert(&mut self, key: String, response: CachedResponse, ttl: Option<u64>, now: u64)
        ensures
            final(self).capacity() == old(self).capacity(),
            final(self).default_ttl() == old(self).default_ttl(),
            ttl == Some(0u64) ==> *final(self) == *old(self),
            ttl != Some(0u64) ==> {
                let e = CachedEntryView {
                    response: response@,
                    expires_at: expiry_time(now, match ttl { Some(t) => t, None => old(self).default_ttl() }),
                };
                &&& final(self)@.submap_of(old(self)@.insert(key@, e))
                &&& old(self).accounted() + 1 <= old(self).capacity() ==> final(self)@ == old(self)@.insert(key@, e)
                &&& final(self).accounted() <= old(self).accounted() + 1
            },
    {
        let lifetime = match ttl {
            Some(t) => t,
            None => self.default_ttl,
        };
        if lifetime == 0 && ttl.is_some() {
            return;
        }
        let entry = CachedEntry { response: Arc::new(response), expires_at: now.saturating_add(lifetime) };
        moka_insert(&mut self.cache, key, entry);
    }

    /// Removes the entry for `key`; while the cache is within its capacity,
    /// the other entries stay.
    pub fn remove(&mut self, key: &str)
        ensures
            settled(*old(self), *final(self)),
            final(self)@.submap_of(old(self)@.remove(key@)),
            old(self).within_capacity() ==> final(self)@ == old(self)@.remove(key@),
    {
        moka_remove(&mut self.cache, key);
    }

    /// Removes every entry whose key starts with `prefix`; while the cache is
    /// within its capacity, every other entry stays as it was.
    pub fn purge_by_prefix(&mut self, prefix: &str)
        ensures
            settled(*old(self), *final(self)),
            final(self)@.submap_of(without_prefix(old(self)@, prefix@)),
            forall|k: Seq<char>| #[trigger] final(self)@.contains_key(k) ==> !has_prefix(k, prefix@),
            old(self).within_capacity() ==> final(self)@ == without_prefix(old(self)@, prefix@),
    {
        let ghost before = self@;
        let ghost start = *self;
        let keys = moka_keys(&mut self.cache);
        let n = keys.len();
        let mut i: usize = 0;
        while i < n
            invariant
                n == keys@.len(),
                i <= n,
                self@.submap_of(before),
                settled(start, *self),
                forall|k: Seq<char>| #[trigger] before.contains_key(k)
                    ==> exists|j: int| 0 <= j < keys@.len() && #[trigger] keys@[j]@ == k,
                forall|j: int| 0 <= j < i && has_prefix(keys@[j]@, prefix@)
                    ==> !self@.contains_key(#[trigger] keys@[j]@),
                start.within_capacity() ==> forall|k: Seq<char>|
                    #[trigger] before.contains_key(k) && !has_prefix(k, prefix@) ==> self@.contains_key(k),
            decreases n - i,
        {
            let ghost cur = self@;
            let ghost cur_cache = *self;
            if str_starts_with(keys[i].as_str(), prefix) {
                moka_remove(&mut self.cache, keys[i].as_str());
                proof {
                    lemma_remove_submap(cur, keys@[i as int]@);
                    lemma_submap_trans(self@, cur.remove(keys@[i as int]@), cur);
                    if start.within_capacity() {
                        assert(cur_cache.within_capacity());
                        assert forall|k: Seq<char>| #[trigger] before.contains_key(k) && !has_prefix(k, prefix@)
                            implies self@.contains_key(k) by {
                            assert(cur.contains_key(k));
                            assert(k != keys@[i as int]@);
                            assert(cur.remove(keys@[i as int]@).contains_key(k));
                        }
                    }
                }
            }
            proof {
                lemma_submap_trans(self@, cur, before);
                assert forall|j: int| 0 <= j <= i && has_prefix(keys@[j]@, prefix@)
                    implies !self@.contains_key(#[trigger] keys@[j]@) by {
                    if self@.contains_key(keys@[j]@) {
                        assert(cur.contains_key(keys@[j]@));
                        if j == i {
                            assert(cur.remove(keys@[i as int]@).contains_key(keys@[j]@));
                        }
                    }
                }
            }
            i = i + 1;
        }
        assert forall|k: Seq<char>| #[trigger] self@.contains_key(k) implies !has_prefix(k, prefix@) by {
            assert(before.contains_key(k));
            let j = choose|j: int| 0 <= j < keys@.len() && #[trigger] keys@[j]@ == k;
            assert(0 <= j < n);
        }
        let ghost kept = without_prefix(before, prefix@);
        assert forall|k: Seq<char>| #[trigger] self@.contains_key(k) implies kept.contains_key(k) && self@[k] == kept[k] by {
            assert(before.contains_key(k));
            assert(!has_prefix(k, prefix@));
        }
        proof {
            if start.within_capacity() {
                assert forall|k: Seq<char>| #[trigger] kept.contains_key(k) implies self@.contains_key(k) by {
                    assert(before.contains_key(k) && !has_prefix(k, prefix@));
                }
                assert(self@ =~= kept);
            }
        }
    }

    /// Discards every entry.
    pub fn clear(&mut self)
        ensures
            settled(*old(self), *final(self)),
            final(self)@.is_empty(),
    {
        let ghost before = self@;
        let ghost start = *self;
        let keys = moka_keys(&mut self.cache);
        let n = keys.len();
        let mut i: usize = 0;
        while i < n
            invariant
                n == keys@.len(),
                i <= n,
                self@.submap_of(before),
                settled(start, *self),
                forall|k: Seq<char>| #[trigger] before.contains_key(k)
                    ==> exists|j: int| 0 <= j < keys@.len() && #[trigger] keys@[j]@ == k,
                forall|j: int| 0 <= j < i ==> !self@.contains_key(#[trigger] keys@[j]@),
            decreases n - i,
        {
            let ghost cur = self@;
            moka_remove(&mut self.cache, keys[i].as_str());
            proof {
                lemma_remove_submap(cur, keys@[i as int]@);
                lemma_submap_trans(self@, cur.remove(keys@[i as int]@), cur);
                lemma_submap_trans(self@, cur, before);
                assert forall|j: int| 0 <= j <= i implies !self@.contains_key(#[trigger] keys@[j]@) by {
                    if self@.contains_key(keys@[j]@) {
                        assert(cur.contains_key(keys@[j]@));
                        if j == i {
                            assert(cur.remove(keys@[i as int]@).contains_key(keys@[j]@));
                        }
                    }
                }
            }
            i = i + 1;
        }
        assert forall|k: Seq<char>| !self@.contains_key(k) by {
            if self@.contains_key(k) {
                assert(before.contains_key(k));
                let j = choose|j: int| 0 <= j < keys@.len() && #[trigger] keys@[j]@ == k;
                assert(0 <= j < n);
            }
        }
        assert(self@.dom() =~= Set::<Seq<char>>::empty());
    }

    /// The entry count that the underlying `moka` cache keeps.
    pub closed spec fn entry_estimate(&self) -> u64 {
        moka_entry_estimate(self.cache)
    }

    /// The cache's own estimate of how many entries it holds; it is at most
    /// the number of entries the cache accounts for.
    pub fn entry_count(&self) -> (r: u64)
        ensures
            r == self.entry_estimate(),
            r <= self.accounted(),
    {
        moka_entry_count(&self.cache)
    }
}

} // verus!
