use fastcache::cache::{CachedResponse, CdnCache};

const NOW: u64 = 1_700_000_000;

fn create_response(body: &str) -> CachedResponse {
    CachedResponse {
        body: body.as_bytes().to_vec(),
        content_type: "text/plain".to_string(),
        etag: format!("etag-{}", body),
        headers: Vec::new(),
    }
}

#[test]
fn test_insert_and_get() {
    let mut cache = CdnCache::new(100, 3600);

    let response = create_response("hello");
    cache.insert("/test".to_string(), response.clone(), None, NOW);

    let result = cache.get("/test", NOW);
    assert!(result.is_some());
    assert_eq!(result.unwrap().body, b"hello".to_vec());
}

#[test]
fn test_get_nonexistent() {
    let mut cache = CdnCache::new(100, 3600);

    let result = cache.get("/nonexistent", NOW);
    assert!(result.is_none());
}

#[test]
fn test_ttl_zero_not_cached() {
    let mut cache = CdnCache::new(100, 3600);

    let response = create_response("should not cache");
    cache.insert("/nocache".to_string(), response, Some(0), NOW);

    let result = cache.get("/nocache", NOW);
    assert!(result.is_none());
}

#[test]
fn test_remove() {
    let mut cache = CdnCache::new(100, 3600);

    let response = create_response("to be removed");
    cache.insert("/remove-me".to_string(), response, None, NOW);

    assert!(cache.get("/remove-me", NOW).is_some());

    cache.remove("/remove-me");

    assert!(cache.get("/remove-me", NOW).is_none());
}

#[test]
fn test_purge_by_prefix() {
    let mut cache = CdnCache::new(100, 3600);

    cache.insert("/static/a.txt".to_string(), create_response("a"), None, NOW);
    cache.insert("/static/b.txt".to_string(), create_response("b"), None, NOW);
    cache.insert("/api/endpoint".to_string(), create_response("api"), None, NOW);

    assert!(cache.get("/static/a.txt", NOW).is_some());
    assert!(cache.get("/static/b.txt", NOW).is_some());
    assert!(cache.get("/api/endpoint", NOW).is_some());

    cache.purge_by_prefix("/static/");

    assert!(cache.get("/static/a.txt", NOW).is_none());
    assert!(cache.get("/static/b.txt", NOW).is_none());
    assert!(cache.get("/api/endpoint", NOW).is_some());
}

#[test]
fn test_clear() {
    let mut cache = CdnCache::new(100, 3600);

    cache.insert("/a".to_string(), create_response("a"), None, NOW);
    cache.insert("/b".to_string(), create_response("b"), None, NOW);

    assert!(cache.get("/a", NOW).is_some());
    assert!(cache.get("/b", NOW).is_some());

    cache.clear();

    assert!(cache.get("/a", NOW).is_none());
    assert!(cache.get("/b", NOW).is_none());
}

#[test]
fn insert_replaces_previous_value() {
    let mut cache = CdnCache::new(100, 3600);
    cache.insert("/k".to_string(), create_response("one"), Some(10), NOW);
    cache.insert("/k".to_string(), create_response("two"), None, NOW);
    let got = cache.get("/k", NOW).unwrap();
    assert_eq!(got.body, b"two".to_vec());
    assert_eq!(got.etag, "etag-two");
}

#[test]
fn zero_capacity_cache_keeps_nothing() {
    let mut cache = CdnCache::new(0, 3600);
    cache.insert("/k".to_string(), create_response("x"), None, NOW);
    assert!(cache.get("/k", NOW).is_none());
}

#[test]
fn duplicate_copies_every_field() {
    let mut r = create_response("body");
    r.headers.push(("Last-Modified".to_string(), "Mon".to_string()));
    let d = r.duplicate();
    assert_eq!(d.body, r.body);
    assert_eq!(d.content_type, r.content_type);
    assert_eq!(d.etag, r.etag);
    assert_eq!(d.headers, r.headers);
}

#[test]
fn entry_expires_after_its_ttl() {
    let mut cache = CdnCache::new(100, 3600);
    cache.insert("/k".to_string(), create_response("x"), Some(10), NOW);
    assert!(cache.get("/k", NOW + 9).is_some());
    assert!(cache.get("/k", NOW + 10).is_none());
    // An expired entry is dropped.
    assert!(cache.get("/k", NOW).is_none());
}

#[test]
fn default_ttl_applies_without_own_ttl() {
    let mut cache = CdnCache::new(100, 60);
    cache.insert("/k".to_string(), create_response("x"), None, NOW);
    assert!(cache.get("/k", NOW + 59).is_some());
    assert!(cache.get("/k", NOW + 60).is_none());
}

#[test]
fn origin_ttl_longer_than_default_is_honoured() {
    let mut cache = CdnCache::new(100, 60);
    cache.insert("/k".to_string(), create_response("x"), Some(86400), NOW);
    assert!(cache.get("/k", NOW + 3600).is_some());
}

#[test]
fn huge_ttl_saturates() {
    let mut cache = CdnCache::new(100, 60);
    cache.insert("/k".to_string(), create_response("x"), Some(u64::MAX), NOW);
    assert!(cache.get("/k", u64::MAX - 1).is_some());
}

#[test]
fn purge_by_empty_prefix_clears_everything() {
    let mut cache = CdnCache::new(100, 3600);
    cache.insert("/a".to_string(), create_response("a"), None, NOW);
    cache.insert("b".to_string(), create_response("b"), None, NOW);
    cache.purge_by_prefix("");
    assert!(cache.get("/a", NOW).is_none());
    assert!(cache.get("b", NOW).is_none());
}
