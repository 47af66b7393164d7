use fastcache::admin::{decimal_string, process_request, purge_output, purge_request, stats_output, AdminRequest, AdminResponse, CliOutput};
use fastcache::cache::{CachedResponse, CdnCache};
use fastcache::cache_service::{CacheOperationResult, CacheService};
use fastcache::cdn_service::FetchResult;
use fastcache::config::{default_admin_port, default_burst_size, default_requests_per_second, default_socket_path, Config, OriginConfig, RateLimitConfig, DEFAULT_SOCKET_PATH};
use fastcache::http::{build_response, health_check, response_for};
use fastcache::origin::{check_status, join_path, LocalOrigin, RemoteOrigin};

fn cached(body: &str) -> CachedResponse {
    CachedResponse {
        body: body.as_bytes().to_vec(),
        content_type: "text/plain".to_string(),
        etag: "abc".to_string(),
        headers: vec![
            ("Content-Type".to_string(), "text/html".to_string()),
            ("Last-Modified".to_string(), "Mon".to_string()),
        ],
    }
}

#[test]
fn config_defaults() {
    assert_eq!(default_admin_port(), 9090);
    assert_eq!(default_socket_path(), "/tmp/fastcache.sock");
    assert_eq!(DEFAULT_SOCKET_PATH, "/tmp/fastcache.sock");
    assert_eq!(default_requests_per_second(), 100);
    assert_eq!(default_burst_size(), 50);
    let r = RateLimitConfig::default();
    assert_eq!((r.requests_per_second, r.burst_size), (100, 50));
    let c = Config::default();
    assert_eq!(c.server.host, "0.0.0.0");
    assert_eq!(c.server.port, 8080);
    assert_eq!(c.server.admin_port, 9090);
    assert_eq!(c.cache.max_capacity, 10000);
    assert_eq!(c.cache.default_ttl, 3600);
    assert_eq!(c.origins.len(), 1);
    assert_eq!(c.origins[0].path(), "/");
    assert_eq!(c.origins[0].cache_ttl(), 3600);
    assert!(c.tls.is_none());
}

#[test]
fn origin_config_accessors() {
    let o = OriginConfig::Remote { path: "/api".to_string(), url: "http://x".to_string(), cache_ttl: 7 };
    assert_eq!(o.path(), "/api");
    assert_eq!(o.cache_ttl(), 7);
}

#[test]
fn admin_requests() {
    let mut svc = CacheService::new(CdnCache::new(100, 3600));
    match process_request(AdminRequest::Purge { path: "/a".to_string() }, &mut svc) {
        AdminResponse::Success { message } => assert_eq!(message, "Purged: /a"),
        _ => panic!(),
    }
    match process_request(AdminRequest::PurgePrefix { prefix: "/s/".to_string() }, &mut svc) {
        AdminResponse::Success { message } => assert_eq!(message, "Purged prefix: /s/"),
        _ => panic!(),
    }
    match process_request(AdminRequest::PurgeAll, &mut svc) {
        AdminResponse::Success { message } => assert_eq!(message, "All cache cleared"),
        _ => panic!(),
    }
    assert!(matches!(process_request(AdminRequest::Stats, &mut svc), AdminResponse::Stats { .. }));
}

#[test]
fn cache_service_purges() {
    let mut cache = CdnCache::new(100, 3600);
    cache.insert("/s/a".to_string(), cached("a"), None, 0);
    cache.insert("/t/b".to_string(), cached("b"), None, 0);
    let mut svc = CacheService::new(cache);
    match svc.purge_prefix("/s/") {
        CacheOperationResult::Success { message } => assert_eq!(message, "Purged prefix: /s/"),
        _ => panic!(),
    }
    assert!(matches!(svc.stats(), CacheOperationResult::Stats { .. }));
    let mut cache = svc.into_cache();
    assert!(cache.get("/s/a", 0).is_none());
    assert!(cache.get("/t/b", 0).is_some());
}

#[test]
fn purge_request_choice() {
    assert!(matches!(purge_request(Some("/p".into()), Some("/x".into()), true), AdminRequest::PurgeAll));
    assert!(matches!(purge_request(Some("/p".into()), Some("/x".into()), false), AdminRequest::PurgePrefix { prefix } if prefix == "/x"));
    assert!(matches!(purge_request(Some("/p".into()), None, false), AdminRequest::Purge { path } if path == "/p"));
    assert!(matches!(purge_request(None, None, false), AdminRequest::PurgeAll));
}

#[test]
fn cli_outputs() {
    assert!(matches!(purge_output(&AdminResponse::Success { message: "done".into() }), CliOutput::Stdout(s) if s == "done"));
    assert!(matches!(purge_output(&AdminResponse::Error { message: "bad".into() }), CliOutput::Stderr(s) if s == "Error: bad"));
    assert!(matches!(purge_output(&AdminResponse::Stats { entry_count: 1 }), CliOutput::Nothing));
    assert!(matches!(stats_output(&AdminResponse::Stats { entry_count: 1203 }), CliOutput::Stdout(s) if s == "Cache entries: 1203"));
    assert!(matches!(stats_output(&AdminResponse::Success { message: "x".into() }), CliOutput::Nothing));
    assert_eq!(decimal_string(0), "0");
    assert_eq!(decimal_string(18446744073709551615), "18446744073709551615");
}

#[test]
fn health() {
    let h = health_check();
    assert_eq!(h.status, "ok");
    assert_eq!(h.version, "0.1.0");
}

#[test]
fn response_headers() {
    let r = build_response(&cached("body"), true);
    assert_eq!(r.status, 200);
    assert_eq!(r.body, b"body".to_vec());
    let names: Vec<(String, String)> = r.headers.clone();
    assert_eq!(
        names,
        vec![
            ("content-type".to_string(), "text/plain".to_string()),
            ("etag".to_string(), "\"abc\"".to_string()),
            ("X-Cache".to_string(), "HIT".to_string()),
            ("Last-Modified".to_string(), "Mon".to_string()),
        ]
    );
    let r = build_response(&cached("body"), false);
    assert_eq!(r.headers[2].1, "MISS");
}

#[test]
fn responses_for_results() {
    let r = response_for("/x", FetchResult::NotModified);
    assert_eq!(r.status, 304);
    assert!(r.body.is_empty());
    let r = response_for("/missing", FetchResult::NotFound("why".into()));
    assert_eq!(r.status, 404);
    assert_eq!(r.body, b"Not found: /missing".to_vec());
    let r = response_for("/x", FetchResult::Fresh(cached("y")));
    assert_eq!(r.status, 200);
    assert_eq!(r.headers[2].1, "MISS");
}

#[test]
fn local_origin_paths() {
    let o = LocalOrigin::new("./public");
    assert_eq!(o.root(), "./public");
    assert_eq!(o.target_path("/foo.txt"), "./public/foo.txt");
    assert_eq!(o.target_path("//a/b"), "./public/a/b");
    assert_eq!(o.target_path("/"), "./public/");
    assert_eq!(LocalOrigin::new("/srv/").target_path("/x"), "/srv/x");
    assert_eq!(join_path("", "x"), "x");
    assert_eq!(join_path("/a", "/b"), "/b");
    assert_eq!(LocalOrigin::index_path("/srv/dir"), "/srv/dir/index.html");
}

#[test]
fn local_origin_decisions() {
    assert_eq!(LocalOrigin::check_resolved("/x", None, Some("/srv".into())), Err("File not found: /x".to_string()));
    assert_eq!(LocalOrigin::check_resolved("/x", Some("/srv/x".into()), None), Err("Root directory not found".to_string()));
    assert_eq!(LocalOrigin::check_resolved("/x", Some("/srv/x".into()), Some("/srv".into())), Ok("/srv/x".to_string()));
    assert_eq!(LocalOrigin::check_resolved("/x", Some("/srvx/x".into()), Some("/srv".into())), Err("Path traversal attempt detected".to_string()));
    assert_eq!(LocalOrigin::check_resolved("/x", Some("/etc/passwd".into()), Some("/srv".into())), Err("Path traversal attempt detected".to_string()));
    assert_eq!(LocalOrigin::choose_file("/srv/d", true, true), Ok("/srv/d/index.html".to_string()));
    assert_eq!(LocalOrigin::choose_file("/srv/d", true, false), Err("Directory listing not allowed".to_string()));
    assert_eq!(LocalOrigin::choose_file("/srv/f.txt", false, false), Ok("/srv/f.txt".to_string()));
}

#[test]
fn local_file_response() {
    let r = LocalOrigin::read_file("/srv/a.html", b"<p>".to_vec(), Some((0, 0)));
    assert_eq!(r.content_type, "text/html");
    assert_eq!(r.body, b"<p>".to_vec());
    assert_eq!(r.headers, vec![("Last-Modified".to_string(), "Thu, 01 Jan 1970 00:00:00 GMT".to_string())]);
    let r = LocalOrigin::read_file("/srv/data.unknownext", Vec::new(), None);
    assert_eq!(r.content_type, "application/octet-stream");
    assert!(r.headers.is_empty());
}

#[test]
fn remote_origin() {
    let o = RemoteOrigin::new("http://backend:3000//").unwrap();
    assert_eq!(o.base_url(), "http://backend:3000");
    assert_eq!(o.request_url("/users"), "http://backend:3000/users");
    let r = RemoteOrigin::remote_response(None, Some("Tue".into()), None, b"x".to_vec());
    assert_eq!(r.content_type, "application/octet-stream");
    assert_eq!(r.headers, vec![("Last-Modified".to_string(), "Tue".to_string())]);
    let r = RemoteOrigin::remote_response(Some("text/css".into()), None, Some("max-age=60".into()), Vec::new());
    assert_eq!(r.content_type, "text/css");
    assert_eq!(
        r.headers,
        vec![
            ("Content-Type".to_string(), "text/css".to_string()),
            ("Cache-Control".to_string(), "max-age=60".to_string()),
        ]
    );
}

#[test]
fn status_check() {
    assert_eq!(check_status(200, "OK", "http://h/a"), Ok(()));
    assert_eq!(check_status(299, "", "http://h/a"), Ok(()));
    assert_eq!(
        check_status(404, "Not Found", "http://h/a"),
        Err("Origin returned error: 404 Not Found for http://h/a".to_string())
    );
    assert_eq!(
        check_status(199, "<unknown status code>", "u"),
        Err("Origin returned error: 199 <unknown status code> for u".to_string())
    );
    assert!(check_status(300, "Multiple Choices", "u").is_err());
}

#[test]
fn stats_reports_the_cache_count() {
    let mut svc = CacheService::new(CdnCache::new(100, 3600));
    let expected = svc.cache().entry_count();
    match svc.stats() {
        CacheOperationResult::Stats { entry_count } => assert_eq!(entry_count, expected),
        _ => panic!(),
    }
    match process_request(AdminRequest::Stats, &mut svc) {
        AdminResponse::Stats { entry_count } => assert_eq!(entry_count, expected),
        _ => panic!(),
    }
}

#[test]
fn purging_a_path_keeps_the_other_entries() {
    let mut cache = CdnCache::new(100, 3600);
    cache.insert("/a".to_string(), cached("a"), None, 0);
    cache.insert("/b".to_string(), cached("b"), None, 0);
    cache.insert("/ab".to_string(), cached("ab"), None, 0);
    let mut svc = CacheService::new(cache);
    match process_request(AdminRequest::Purge { path: "/a".to_string() }, &mut svc) {
        AdminResponse::Success { message } => assert_eq!(message, "Purged: /a"),
        _ => panic!(),
    }
    // A path that is not cached is purged all the same.
    match svc.purge("/missing") {
        CacheOperationResult::Success { message } => assert_eq!(message, "Purged: /missing"),
        _ => panic!(),
    }
    let mut cache = svc.into_cache();
    assert!(cache.get("/a", 0).is_none());
    assert_eq!(cache.get("/b", 0).unwrap().body, b"b".to_vec());
    assert_eq!(cache.get("/ab", 0).unwrap().body, b"ab".to_vec());
}
